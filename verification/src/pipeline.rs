//! From the lines of a project to its aggregates.
//!
//! The lines are taken one by one. A class is open from the line that names
//! it until a sentinel or a line that names another class; when it closes,
//! its injected dependencies are counted. What a project holds after a line is
//! a function of what it held before and of the line: [`step`].

use crate::fixed::Fixed;
use crate::ingest::{
    classify_line, fields, line_kind, listed_class, listed_types, named_class, numeric_values,
    parse_metrics_line, parse_type_list_line, tokens, LineKind,
};
use crate::metrics::{
    class_model, class_models, position_of, weighted_cbo, with_class, ClassAndMetricStruct,
    ClassModel, MetricsData,
};
use crate::names::injected_set;
use crate::schema::METRIC_COUNT;
use vstd::prelude::*;

verus! {

/// What the lines of a project add up to: the values of each series and the
/// classes.
pub struct ProjectModel {
    pub series: Seq<Seq<Fixed>>,
    pub classes: Seq<ClassModel>,
}

/// The values of each series, in order.
pub open spec fn series_values(metrics: Seq<MetricsData>) -> Seq<Seq<Fixed>> {
    Seq::new(metrics.len(), |k: int| metrics[k].values@)
}

/// The model of a project.
pub open spec fn project_model(project: ClassAndMetricStruct) -> ProjectModel {
    ProjectModel {
        series: series_values(project.metrics@),
        classes: class_models(project.classes@),
    }
}

/// A class with its injected dependencies counted and its coupling weighted.
pub open spec fn closed_class(
    class: ClassModel,
    class_names: Seq<Seq<char>>,
    xml_di_classes: Seq<Seq<char>>,
) -> ClassModel {
    let di_params = injected_set(
        class.method_params,
        xml_di_classes,
        class.field_types,
        class_names,
    ).len();
    ClassModel {
        name: class.name,
        method_params: class.method_params,
        field_types: class.field_types,
        cbo: class.cbo,
        di_params,
        diw_cbo: weighted_cbo(class.cbo, di_params),
    }
}

/// The classes with the open one closed; as they are where none is open.
pub open spec fn closed(
    classes: Seq<ClassModel>,
    open: Option<usize>,
    class_names: Seq<Seq<char>>,
    xml_di_classes: Seq<Seq<char>>,
) -> Seq<ClassModel> {
    match open {
        Some(p) => if p < classes.len() {
            classes.update(p as int, closed_class(classes[p as int], class_names, xml_di_classes))
        } else {
            classes
        },
        None => classes,
    }
}

/// The classes once the class of that name is the open one: it is among
/// them, and the class that was open, if it is another, is closed.
pub open spec fn switched(
    classes: Seq<ClassModel>,
    open: Option<usize>,
    name: Seq<char>,
    class_names: Seq<Seq<char>>,
    xml_di_classes: Seq<Seq<char>>,
) -> Seq<ClassModel> {
    if open == Some(position_of(classes, name) as usize) {
        with_class(classes, name)
    } else {
        closed(with_class(classes, name), open, class_names, xml_di_classes)
    }
}

/// A class with more parameter types, or with more field types.
pub open spec fn with_types(class: ClassModel, types: Seq<Seq<char>>, of_fields: bool) -> ClassModel {
    ClassModel {
        name: class.name,
        method_params: if of_fields {
            class.method_params
        } else {
            class.method_params + types
        },
        field_types: if of_fields {
            class.field_types + types
        } else {
            class.field_types
        },
        cbo: class.cbo,
        di_params: class.di_params,
        diw_cbo: class.diw_cbo,
    }
}

/// A class with its coupling replaced.
pub open spec fn with_cbo(class: ClassModel, cbo: Fixed) -> ClassModel {
    ClassModel {
        name: class.name,
        method_params: class.method_params,
        field_types: class.field_types,
        cbo: cbo@,
        di_params: class.di_params,
        diw_cbo: class.diw_cbo,
    }
}

/// The series after a record: the `k`-th value of the record is appended to
/// the `k`-th series, where the record has one; every other series stays, and
/// a value beyond the series is passed over.
pub open spec fn recorded(series: Seq<Seq<Fixed>>, values: Seq<Option<Fixed>>) -> Seq<Seq<Fixed>> {
    Seq::new(
        series.len(),
        |k: int|
            if k < values.len() && values[k] is Some {
                series[k].push(values[k]->0)
            } else {
                series[k]
            },
    )
}

/// The classes after a list of types for the class of that name.
pub open spec fn listed(
    classes: Seq<ClassModel>,
    open: Option<usize>,
    name: Seq<char>,
    types: Seq<Seq<char>>,
    of_fields: bool,
    class_names: Seq<Seq<char>>,
    xml_di_classes: Seq<Seq<char>>,
) -> Seq<ClassModel> {
    let at = position_of(classes, name) as int;
    let now = switched(classes, open, name, class_names, xml_di_classes);
    now.update(at, with_types(now[at], types, of_fields))
}

/// The classes after the metrics of the class of that name: its coupling is
/// the fourth value of the record, where the record has one.
pub open spec fn measured(
    classes: Seq<ClassModel>,
    open: Option<usize>,
    name: Seq<char>,
    values: Seq<Option<Fixed>>,
    class_names: Seq<Seq<char>>,
    xml_di_classes: Seq<Seq<char>>,
) -> Seq<ClassModel> {
    let at = position_of(classes, name) as int;
    let now = switched(classes, open, name, class_names, xml_di_classes);
    if values.len() > 3 && values[3] is Some {
        now.update(at, with_cbo(now[at], values[3]->0))
    } else {
        now
    }
}

/// What one line makes of a project, and which class is open after it.
///
/// A sentinel closes the open class. A list of types opens its class and adds
/// the types to it; a list that names no class changes nothing. A metrics
/// line opens its class, sets the coupling of the class and appends each
/// value to its series; a numeral that is not finite takes its place in the
/// record and gives no value. Any other line changes nothing.
pub open spec fn step(
    project: ProjectModel,
    open: Option<usize>,
    line: Seq<char>,
    class_names: Seq<Seq<char>>,
    xml_di_classes: Seq<Seq<char>>,
) -> (ProjectModel, Option<usize>) {
    match line_kind(line) {
        LineKind::Sentinel => (
            ProjectModel {
                series: project.series,
                classes: closed(project.classes, open, class_names, xml_di_classes),
            },
            None,
        ),
        LineKind::MethodParams => {
            let f = fields(tokens(line, true));
            match listed_class(f) {
                Some(name) => (
                    ProjectModel {
                        series: project.series,
                        classes: listed(
                            project.classes,
                            open,
                            name,
                            listed_types(f),
                            false,
                            class_names,
                            xml_di_classes,
                        ),
                    },
                    Some(position_of(project.classes, name) as usize),
                ),
                None => (project, open),
            }
        },
        LineKind::FieldTypes => {
            let f = fields(tokens(line, true));
            match listed_class(f) {
                Some(name) => (
                    ProjectModel {
                        series: project.series,
                        classes: listed(
                            project.classes,
                            open,
                            name,
                            listed_types(f),
                            true,
                            class_names,
                            xml_di_classes,
                        ),
                    },
                    Some(position_of(project.classes, name) as usize),
                ),
                None => (project, open),
            }
        },
        LineKind::Metrics => {
            let f = fields(tokens(line, false));
            (
                ProjectModel {
                    series: recorded(project.series, numeric_values(f)),
                    classes: measured(
                        project.classes,
                        open,
                        named_class(f),
                        numeric_values(f),
                        class_names,
                        xml_di_classes,
                    ),
                },
                Some(position_of(project.classes, named_class(f)) as usize),
            )
        },
        LineKind::Other => (project, open),
    }
}

/// What the first `n` lines make of a project, taken in order, and which
/// class is open after them.
pub open spec fn run(
    project: ProjectModel,
    open: Option<usize>,
    lines: Seq<Seq<char>>,
    n: nat,
    class_names: Seq<Seq<char>>,
    xml_di_classes: Seq<Seq<char>>,
) -> (ProjectModel, Option<usize>)
    decreases n,
{
    if n == 0 {
        (project, open)
    } else {
        let before = run(project, open, lines, (n - 1) as nat, class_names, xml_di_classes);
        step(before.0, before.1, lines[n - 1], class_names, xml_di_classes)
    }
}

/// What reading lines leaves as it was: the sums over the classes, and the
/// bounds and the mean of each series.
pub open spec fn same_aggregates(before: ClassAndMetricStruct, after: ClassAndMetricStruct) -> bool {
    &&& after.di_couplings == before.di_couplings
    &&& after.total_couplings == before.total_couplings
    &&& after.di_proportion == before.di_proportion
    &&& after.diw_cbo_mean == before.diw_cbo_mean
    &&& after.metrics@.len() == before.metrics@.len()
    &&& forall|k: int|
        0 <= k < before.metrics@.len() ==> {
            &&& (#[trigger] after.metrics@[k]).limits == before.metrics@[k].limits
            &&& after.metrics@[k].mean.mean == before.metrics@[k].mean.mean
        }
}

impl ClassAndMetricStruct {
    /// Closes the class at `index`: counts its injected dependencies and
    /// weights its coupling.
    pub fn close_class(
        &mut self,
        index: usize,
        class_names: &Vec<String>,
        xml_di_classes: &Vec<String>,
    )
        requires
            old(self).wf(),
            index < old(self).classes@.len(),
        ensures
            final(self).wf(),
            final(self).classes@.len() == old(self).classes@.len(),
            class_models(final(self).classes@) == closed(
                class_models(old(self).classes@),
                Some(index),
                class_names.deep_view(),
                xml_di_classes.deep_view(),
            ),
            final(self).metrics == old(self).metrics,
            same_aggregates(*old(self), *final(self)),
    {
        self.classes[index].data.compute_class_di_metrics(class_names, xml_di_classes);
        proof {
            let before = class_models(old(self).classes@);
            let expected = closed(
                before,
                Some(index),
                class_names.deep_view(),
                xml_di_classes.deep_view(),
            );
            assert(class_models(self.classes@) =~= expected);
        }
    }

    /// Makes the class of that name the open one: adds it where it is new, and
    /// closes the class that was open, if it is another.
    pub fn switch_class(
        &mut self,
        open: Option<usize>,
        name: &str,
        class_names: &Vec<String>,
        xml_di_classes: &Vec<String>,
    ) -> (index: usize)
        requires
            old(self).wf(),
        ensures
            final(self).wf(),
            index == position_of(class_models(old(self).classes@), name@),
            index < final(self).classes@.len(),
            class_models(final(self).classes@) == switched(
                class_models(old(self).classes@),
                open,
                name@,
                class_names.deep_view(),
                xml_di_classes.deep_view(),
            ),
            final(self).metrics == old(self).metrics,
            same_aggregates(*old(self), *final(self)),
    {
        let index: usize = self.open_class(name);
        match open {
            Some(p) => {
                if p != index && p < self.classes.len() {
                    self.close_class(p, class_names, xml_di_classes);
                }
            },
            None => {},
        }
        index
    }

    /// Adds the types to the class at `index`: to its field types where
    /// `of_fields` holds, else to its parameter types.
    pub fn add_types(&mut self, index: usize, types: &Vec<String>, of_fields: bool)
        requires
            old(self).wf(),
            index < old(self).classes@.len(),
        ensures
            final(self).wf(),
            final(self).classes@.len() == old(self).classes@.len(),
            class_models(final(self).classes@) == class_models(old(self).classes@).update(
                index as int,
                with_types(
                    class_models(old(self).classes@)[index as int],
                    types.deep_view(),
                    of_fields,
                ),
            ),
            final(self).metrics == old(self).metrics,
            same_aggregates(*old(self), *final(self)),
    {
        let ghost before = class_models(self.classes@);
        let n: usize = types.len();
        let mut k: usize = 0;
        proof {
            assert(types.deep_view().take(0) =~= Seq::<Seq<char>>::empty());
            assert(before[index as int].method_params + Seq::<Seq<char>>::empty()
                =~= before[index as int].method_params);
            assert(before[index as int].field_types + Seq::<Seq<char>>::empty()
                =~= before[index as int].field_types);
            assert(class_models(self.classes@) =~= before.update(
                index as int,
                with_types(before[index as int], types.deep_view().take(0), of_fields),
            ));
        }
        while k < n
            invariant
                k <= n == types@.len(),
                index < self.classes@.len() == old(self).classes@.len(),
                before == class_models(old(self).classes@),
                self.wf(),
                class_models(self.classes@) == before.update(
                    index as int,
                    with_types(before[index as int], types.deep_view().take(k as int), of_fields),
                ),
                self.metrics == old(self).metrics,
                same_aggregates(*old(self), *self),
            decreases n - k,
        {
            let ghost earlier = self.classes@;
            let ghost so_far = types.deep_view().take(k as int);
            let t: String = types[k].clone();
            if of_fields {
                self.classes[index].data.add_field_type(t);
            } else {
                self.classes[index].data.add_method_param(t);
            }
            proof {
                let next = types.deep_view().take(k + 1);
                assert(next =~= so_far.push(types@[k as int]@));
                let was = class_model(earlier[index as int]);
                let is = class_model(self.classes@[index as int]);
                if of_fields {
                    assert(is.field_types =~= was.field_types.push(types@[k as int]@));
                    assert(before[index as int].field_types + next =~= (
                    before[index as int].field_types + so_far).push(types@[k as int]@));
                } else {
                    assert(is.method_params =~= was.method_params.push(types@[k as int]@));
                    assert(before[index as int].method_params + next =~= (
                    before[index as int].method_params + so_far).push(types@[k as int]@));
                }
                assert(class_models(earlier)[index as int] == was);
                assert(class_models(self.classes@) =~= before.update(
                    index as int,
                    with_types(before[index as int], next, of_fields),
                )) by {
                    assert forall|j: int| 0 <= j < self.classes@.len() && j != index implies class_models(
                        self.classes@,
                    )[j] == before[j] by {
                        assert(self.classes@[j] == earlier[j]);
                        assert(class_models(earlier)[j] == before[j]);
                    }
                }
                assert forall|i: int, j: int|
                    0 <= i < j < self.classes@.len() implies (#[trigger] self.classes@[i]).name@
                    != (#[trigger] self.classes@[j]).name@ by {
                    assert(self.classes@[i].name == earlier[i].name);
                    assert(self.classes@[j].name == earlier[j].name);
                }
            }
            k = k + 1;
        }
        proof {
            assert(types.deep_view().take(n as int) =~= types.deep_view());
        }
    }

    /// Sets the coupling of the class at `index`.
    pub fn set_cbo(&mut self, index: usize, cbo: Fixed)
        requires
            old(self).wf(),
            index < old(self).classes@.len(),
        ensures
            final(self).wf(),
            final(self).classes@.len() == old(self).classes@.len(),
            class_models(final(self).classes@) == class_models(old(self).classes@).update(
                index as int,
                with_cbo(class_models(old(self).classes@)[index as int], cbo),
            ),
            final(self).metrics == old(self).metrics,
            same_aggregates(*old(self), *final(self)),
    {
        self.classes[index].data.add_cbo(cbo);
        proof {
            let before = class_models(old(self).classes@);
            assert(class_models(self.classes@) =~= before.update(
                index as int,
                with_cbo(before[index as int], cbo),
            ));
        }
    }

    /// Appends the values of a record to the series: the `k`-th value to the
    /// `k`-th series.
    pub fn record_values(&mut self, values: &Vec<Option<Fixed>>)
        requires
            old(self).wf(),
            old(self).initialized(),
        ensures
            final(self).wf(),
            final(self).initialized(),
            series_values(final(self).metrics@) == recorded(
                series_values(old(self).metrics@),
                values@,
            ),
            final(self).classes == old(self).classes,
            same_aggregates(*old(self), *final(self)),
    {
        let n: usize = if values.len() < METRIC_COUNT {
            values.len()
        } else {
            METRIC_COUNT
        };
        let mut k: usize = 0;
        while k < n
            invariant
                k <= n <= METRIC_COUNT,
                n <= values@.len(),
                n == METRIC_COUNT || n == values@.len(),
                self.wf(),
                self.initialized(),
                old(self).initialized(),
                forall|j: int|
                    0 <= j < k ==> (#[trigger] self.metrics@[j]).values@ == if values@[j] is Some {
                        old(self).metrics@[j].values@.push(values@[j]->0)
                    } else {
                        old(self).metrics@[j].values@
                    },
                forall|j: int|
                    k <= j < METRIC_COUNT ==> #[trigger] self.metrics@[j] == old(self).metrics@[j],
                self.classes == old(self).classes,
                same_aggregates(*old(self), *self),
            decreases n - k,
        {
            match values[k] {
                Some(value) => {
                    self.add_metric_value(k, value);
                },
                None => {},
            }
            k = k + 1;
        }
        proof {
            assert(series_values(self.metrics@) =~= recorded(
                series_values(old(self).metrics@),
                values@,
            ));
        }
    }

    /// Takes one line of the analyser's output into the project. `open` is
    /// the class that is open before the line; the result is the one that is
    /// open after it. See [`step`].
    pub fn process_line(
        &mut self,
        open: Option<usize>,
        line: &str,
        class_names: &Vec<String>,
        xml_di_classes: &Vec<String>,
    ) -> (next: Option<usize>)
        requires
            old(self).wf(),
            old(self).initialized(),
        ensures
            final(self).wf(),
            final(self).initialized(),
            (project_model(*final(self)), next) == step(
                project_model(*old(self)),
                open,
                line@,
                class_names.deep_view(),
                xml_di_classes.deep_view(),
            ),
            same_aggregates(*old(self), *final(self)),
    {
        match classify_line(line) {
            LineKind::Sentinel => {
                match open {
                    Some(p) => {
                        if p < self.classes.len() {
                            self.close_class(p, class_names, xml_di_classes);
                        }
                    },
                    None => {},
                }
                None
            },
            LineKind::MethodParams => self.process_type_list(
                open,
                line,
                false,
                class_names,
                xml_di_classes,
            ),
            LineKind::FieldTypes => self.process_type_list(
                open,
                line,
                true,
                class_names,
                xml_di_classes,
            ),
            LineKind::Metrics => {
                let record = parse_metrics_line(line);
                let index: usize = self.switch_class(
                    open,
                    record.class_name.as_str(),
                    class_names,
                    xml_di_classes,
                );
                if record.values.len() > 3 {
                    match record.values[3] {
                        Some(cbo) => {
                            self.set_cbo(index, cbo);
                        },
                        None => {},
                    }
                }
                self.record_values(&record.values);
                Some(index)
            },
            LineKind::Other => open,
        }
    }

    /// Takes a list of types into the project: opens the class that the line
    /// names and adds the types to it. A line that names no class changes
    /// nothing.
    pub fn process_type_list(
        &mut self,
        open: Option<usize>,
        line: &str,
        of_fields: bool,
        class_names: &Vec<String>,
        xml_di_classes: &Vec<String>,
    ) -> (next: Option<usize>)
        requires
            old(self).wf(),
        ensures
            final(self).wf(),
            final(self).metrics == old(self).metrics,
            same_aggregates(*old(self), *final(self)),
            match listed_class(fields(tokens(line@, true))) {
                Some(name) => {
                    &&& next == Some(position_of(class_models(old(self).classes@), name) as usize)
                    &&& class_models(final(self).classes@) == listed(
                        class_models(old(self).classes@),
                        open,
                        name,
                        listed_types(fields(tokens(line@, true))),
                        of_fields,
                        class_names.deep_view(),
                        xml_di_classes.deep_view(),
                    )
                },
                None => next == open && final(self).classes == old(self).classes,
            },
    {
        let list = parse_type_list_line(line);
        match list.class_name {
            Some(name) => {
                let index: usize = self.switch_class(
                    open,
                    name.as_str(),
                    class_names,
                    xml_di_classes,
                );
                self.add_types(index, &list.types, of_fields);
                Some(index)
            },
            None => open,
        }
    }

    /// Takes the lines of a project, in order, and closes the class that is
    /// open after the last.
    pub fn process_lines(
        &mut self,
        lines: &Vec<String>,
        class_names: &Vec<String>,
        xml_di_classes: &Vec<String>,
    )
        requires
            old(self).wf(),
            old(self).initialized(),
        ensures
            final(self).wf(),
            final(self).initialized(),
            project_model(*final(self)) == finished(
                project_model(*old(self)),
                lines.deep_view(),
                class_names.deep_view(),
                xml_di_classes.deep_view(),
            ),
            same_aggregates(*old(self), *final(self)),
    {
        let n: usize = lines.len();
        let mut open: Option<usize> = None;
        let mut i: usize = 0;
        while i < n
            invariant
                i <= n == lines@.len(),
                self.wf(),
                self.initialized(),
                (project_model(*self), open) == run(
                    project_model(*old(self)),
                    None,
                    lines.deep_view(),
                    i as nat,
                    class_names.deep_view(),
                    xml_di_classes.deep_view(),
                ),
                same_aggregates(*old(self), *self),
            decreases n - i,
        {
            open = self.process_line(open, lines[i].as_str(), class_names, xml_di_classes);
            i = i + 1;
        }
        match open {
            Some(p) => {
                if p < self.classes.len() {
                    self.close_class(p, class_names, xml_di_classes);
                }
            },
            None => {},
        }
        proof {
            assert(series_values(self.metrics@) =~= run(
                project_model(*old(self)),
                None,
                lines.deep_view(),
                n as nat,
                class_names.deep_view(),
                xml_di_classes.deep_view(),
            ).0.series);
        }
    }
}

/// What the lines make of a project, the class that is open after the last
/// line closed.
pub open spec fn finished(
    project: ProjectModel,
    lines: Seq<Seq<char>>,
    class_names: Seq<Seq<char>>,
    xml_di_classes: Seq<Seq<char>>,
) -> ProjectModel {
    let end = run(project, None, lines, lines.len(), class_names, xml_di_classes);
    ProjectModel {
        series: end.0.series,
        classes: closed(end.0.classes, end.1, class_names, xml_di_classes),
    }
}

} // verus!
