//! The row of figures that a project is reported by.

use crate::fixed::{clamp, units_of, units_seq, Fixed};
use crate::maintainability::{
    maintainability_from_means, maintainability_of_means, normalized_maintainability,
    normalized_units, outlier_count, outlier_sub_totals, series_outliers, sub_total, weight,
    BoundPolicy, SubIndex,
};
use crate::metrics::{
    class_models, class_totals, di_couplings_of, di_proportion_of, high_bound, highest,
    limits_of, low_bound, lowest, mean_of, sum_units, total_couplings_of, ClassAndMetricStruct,
    MetricsData,
};
use crate::pipeline::{finished, project_model, series_values, ProjectModel};
use crate::reusability::{mean_reusability, reusability_sum};
use crate::schema::Metric;
use vstd::prelude::*;

verus! {

/// Which maintainability index a row reports.
#[derive(Clone, Copy, Debug, PartialEq, Eq, Structural)]
pub enum Variant {
    /// The index weighted by the means of five metrics.
    MeanWeighted,
    /// The index weighted by outliers, over one ceiling per class; with
    /// `inverted`, what it leaves of one whole.
    OutlierWeighted { policy: BoundPolicy, inverted: bool },
}

/// Why a project has no full row of figures.
#[derive(Clone, Copy, Debug, PartialEq, Eq, Structural)]
pub enum DegenerateProjectError {
    /// The project has no class.
    NoClasses,
    /// A figure is missing: a metric was never reported, or the couplings add
    /// up to zero.
    NoMetricSamples,
}

/// A column of the report.
#[derive(Clone, Copy, Debug, PartialEq, Eq, Structural)]
pub enum Column {
    Di,
    Mai,
    DiwMai,
    Reu,
    Loc,
    Cbo,
    DiwCbo,
    Dit,
    Lcom,
    Noc,
    WmcNom,
    Dam,
    Moa,
    Mfa,
}

/// The figures of one project. A figure is missing where it is the mean or
/// the share of nothing.
#[derive(Clone, Copy, Debug, PartialEq, Eq, Structural)]
pub struct ReportRow {
    /// The share of the couplings that are injected.
    pub di: Option<Fixed>,
    /// The maintainability index.
    pub mai: Option<Fixed>,
    /// The mean-weighted index with the weighted couplings in place of the
    /// couplings.
    pub diw_mai: Option<Fixed>,
    /// The mean reusability score of the classes.
    pub reu: Option<Fixed>,
    /// The lines of code.
    pub loc: Fixed,
    /// The mean coupling.
    pub cbo: Option<Fixed>,
    /// The mean weighted coupling.
    pub diw_cbo: Option<Fixed>,
    /// The mean depth of inheritance.
    pub dit: Option<Fixed>,
    /// The mean lack of cohesion.
    pub lcom: Option<Fixed>,
    /// The mean number of children.
    pub noc: Option<Fixed>,
    /// The mean number of methods.
    pub wmc_nom: Option<Fixed>,
    /// The mean data access.
    pub dam: Option<Fixed>,
    /// The mean aggregation.
    pub moa: Option<Fixed>,
    /// The mean functional abstraction.
    pub mfa: Option<Fixed>,
}

/// The figures of one project, in units.
pub struct RowModel {
    pub di: Option<int>,
    pub mai: Option<int>,
    pub diw_mai: Option<int>,
    pub reu: Option<int>,
    pub loc: int,
    pub cbo: Option<int>,
    pub diw_cbo: Option<int>,
    pub dit: Option<int>,
    pub lcom: Option<int>,
    pub noc: Option<int>,
    pub wmc_nom: Option<int>,
    pub dam: Option<int>,
    pub moa: Option<int>,
    pub mfa: Option<int>,
}

impl View for ReportRow {
    type V = RowModel;

    open spec fn view(&self) -> RowModel {
        RowModel {
            di: units_of(self.di),
            mai: units_of(self.mai),
            diw_mai: units_of(self.diw_mai),
            reu: units_of(self.reu),
            loc: self.loc@,
            cbo: units_of(self.cbo),
            diw_cbo: units_of(self.diw_cbo),
            dit: units_of(self.dit),
            lcom: units_of(self.lcom),
            noc: units_of(self.noc),
            wmc_nom: units_of(self.wmc_nom),
            dam: units_of(self.dam),
            moa: units_of(self.moa),
            mfa: units_of(self.mfa),
        }
    }
}

/// The mean of a series, in units.
pub open spec fn series_mean(values: Seq<Fixed>) -> Option<int> {
    mean_of(sum_units(values), values.len())
}

/// How many values of a series lie beyond the outlier bounds of its range.
pub open spec fn range_outliers(values: Seq<Fixed>, policy: BoundPolicy) -> nat {
    if values.len() == 0 {
        0
    } else {
        outlier_count(
            values,
            low_bound(lowest(values), highest(values)),
            high_bound(lowest(values), highest(values)),
            policy,
        )
    }
}

/// The sub-total of one side, from the values of the series.
pub open spec fn range_sub_total(series: Seq<Seq<Fixed>>, sub: SubIndex, policy: BoundPolicy) -> nat {
    weight(Metric::Cbo, sub) * range_outliers(series[3], policy) + weight(Metric::Dit, sub)
        * range_outliers(series[1], policy) + weight(Metric::Lcom, sub) * range_outliers(
        series[5],
        policy,
    ) + weight(Metric::Noc, sub) * range_outliers(series[2], policy) + weight(Metric::WmcNom, sub)
        * range_outliers(series[0], policy)
}

/// The raw outlier-weighted index, from the values of the series.
pub open spec fn range_raw(series: Seq<Seq<Fixed>>, policy: BoundPolicy) -> nat {
    range_sub_total(series, SubIndex::Analyzability, policy) + range_sub_total(
        series,
        SubIndex::Changeability,
        policy,
    ) + range_sub_total(series, SubIndex::Stability, policy) + range_sub_total(
        series,
        SubIndex::Testability,
        policy,
    )
}

/// The mean reusability score of the classes: the `i`-th class has the `i`-th
/// coupling, functional abstraction and data access. None of no classes, and
/// none where the three series differ in length.
pub open spec fn series_reusability(cbo: Seq<Fixed>, mfa: Seq<Fixed>, dam: Seq<Fixed>) -> Option<
    int,
> {
    if cbo.len() == 0 || cbo.len() != mfa.len() || cbo.len() != dam.len() {
        None
    } else {
        Some(clamp(reusability_sum(cbo, mfa, dam, cbo.len()) / (cbo.len() as int)))
    }
}

/// The maintainability index of a project, by the variant.
pub open spec fn index_of(project: ProjectModel, variant: Variant) -> Option<int> {
    match variant {
        Variant::MeanWeighted => mean_weighted(
            series_mean(project.series[3]),
            series_mean(project.series[11]),
            series_mean(project.series[12]),
            series_mean(project.series[1]),
            series_mean(project.series[13]),
        ),
        Variant::OutlierWeighted { policy, inverted } => normalized_units(
            range_raw(project.series, policy),
            project.classes.len(),
            inverted,
        ),
    }
}

/// The mean-weighted index of means in units, of which some may be missing.
pub open spec fn mean_weighted(
    cbo: Option<int>,
    dam: Option<int>,
    moa: Option<int>,
    dit: Option<int>,
    mfa: Option<int>,
) -> Option<int> {
    if cbo is Some && dam is Some && moa is Some && dit is Some && mfa is Some {
        Some(
            crate::maintainability::maintainability_index(
                cbo->0,
                dam->0,
                moa->0,
                dit->0,
                mfa->0,
            ),
        )
    } else {
        None
    }
}

/// The mean of the weighted couplings of the classes, in units.
pub open spec fn diw_cbo_mean_of(project: ProjectModel) -> Option<int> {
    mean_of(class_totals(project.classes).diw_cbo, project.classes.len())
}

/// The row of a project: every figure as a function of the values of its
/// series and of its classes.
pub open spec fn row_of(project: ProjectModel, variant: Variant) -> RowModel {
    RowModel {
        di: di_proportion_of(project.classes),
        mai: index_of(project, variant),
        diw_mai: mean_weighted(
            diw_cbo_mean_of(project),
            series_mean(project.series[11]),
            series_mean(project.series[12]),
            series_mean(project.series[1]),
            series_mean(project.series[13]),
        ),
        reu: series_reusability(project.series[3], project.series[13], project.series[11]),
        loc: clamp(sum_units(project.series[10])),
        cbo: series_mean(project.series[3]),
        diw_cbo: diw_cbo_mean_of(project),
        dit: series_mean(project.series[1]),
        lcom: series_mean(project.series[5]),
        noc: series_mean(project.series[2]),
        wmc_nom: series_mean(project.series[0]),
        dam: series_mean(project.series[11]),
        moa: series_mean(project.series[12]),
        mfa: series_mean(project.series[13]),
    }
}

/// A project without classes, with one empty series for each metric.
pub open spec fn empty_project() -> ProjectModel {
    ProjectModel { series: Seq::new(19, |k: int| Seq::<Fixed>::empty()), classes: Seq::empty() }
}

/// The row that the lines of a project come to.
pub open spec fn report_of(
    lines: Seq<Seq<char>>,
    class_names: Seq<Seq<char>>,
    xml_di_classes: Seq<Seq<char>>,
    variant: Variant,
) -> RowModel {
    row_of(finished(empty_project(), lines, class_names, xml_di_classes), variant)
}

/// Whether the aggregates of a project are those of its values and classes:
/// every mean and every pair of bounds, and the sums over the classes.
pub open spec fn aggregated(project: ClassAndMetricStruct) -> bool {
    &&& forall|k: int|
        0 <= k < project.metrics@.len() ==> {
            &&& units_of((#[trigger] project.metrics@[k]).mean.mean) == series_mean(
                project.metrics@[k].values@,
            )
            &&& units_seq(project.metrics@[k].limits@) == limits_of(project.metrics@[k].values@)
        }
    &&& project.di_couplings@ == di_couplings_of(class_models(project.classes@))
    &&& project.total_couplings@ == total_couplings_of(class_models(project.classes@))
    &&& units_of(project.di_proportion) == di_proportion_of(class_models(project.classes@))
    &&& project.diw_cbo_mean.acc == class_totals(class_models(project.classes@)).diw_cbo
    &&& project.diw_cbo_mean.count == project.classes@.len()
    &&& units_of(project.diw_cbo_mean.mean) == mean_of(
        class_totals(class_models(project.classes@)).diw_cbo,
        project.classes@.len(),
    )
}

/// The maintainability index of a project by the means and bounds as they
/// stand in it.
pub open spec fn standing_index(project: ClassAndMetricStruct, variant: Variant) -> Option<int> {
    match variant {
        Variant::MeanWeighted => maintainability_of_means(
            project.metrics@[3].mean.mean,
            project.metrics@[11].mean.mean,
            project.metrics@[12].mean.mean,
            project.metrics@[1].mean.mean,
            project.metrics@[13].mean.mean,
        ),
        Variant::OutlierWeighted { policy, inverted } => normalized_units(
            sub_total(project.metrics@, SubIndex::Analyzability, policy) + sub_total(
                project.metrics@,
                SubIndex::Changeability,
                policy,
            ) + sub_total(project.metrics@, SubIndex::Stability, policy) + sub_total(
                project.metrics@,
                SubIndex::Testability,
                policy,
            ),
            project.classes@.len(),
            inverted,
        ),
    }
}

/// With the bounds of a series generated, its outliers are those of its
/// range.
pub proof fn lemma_series_outliers(series: MetricsData, policy: BoundPolicy)
    requires
        units_seq(series.limits@) == limits_of(series.values@),
    ensures
        series_outliers(series, policy) == range_outliers(series.values@, policy),
{
    let limits = units_seq(series.limits@);
    assert(limits.len() == series.limits@.len());
    if series.values@.len() > 0 {
        assert(limits[0] == series.limits@[0]@);
        assert(limits[1] == series.limits@[1]@);
    }
}

impl ClassAndMetricStruct {
    /// Brings the aggregates up to date: the sums over the classes, the
    /// outlier bounds and the means.
    pub fn aggregate(&mut self)
        requires
            old(self).wf(),
        ensures
            final(self).wf(),
            aggregated(*final(self)),
            project_model(*final(self)) == project_model(*old(self)),
            final(self).classes == old(self).classes,
            final(self).total_loc == old(self).total_loc,
            final(self).metrics@.len() == old(self).metrics@.len(),
    {
        self.generate_di_metrics();
        self.generate_limits();
        self.compute_means();
        proof {
            assert(series_values(self.metrics@) =~= series_values(old(self).metrics@));
        }
    }

    /// The mean reusability score of the classes, from the series of
    /// coupling, functional abstraction and data access.
    pub fn reusability(&self) -> (r: Option<Fixed>)
        requires
            self.initialized(),
        ensures
            units_of(r) == series_reusability(
                self.metrics@[3].values@,
                self.metrics@[13].values@,
                self.metrics@[11].values@,
            ),
    {
        let n: usize = self.metrics[3].values.len();
        if n != self.metrics[13].values.len() || n != self.metrics[11].values.len() {
            None
        } else {
            mean_reusability(
                &self.metrics[3].values,
                &self.metrics[13].values,
                &self.metrics[11].values,
            )
        }
    }

    /// The maintainability index of the project, by the variant, from the
    /// means and bounds as they stand.
    pub fn maintainability(&self, variant: Variant) -> (r: Option<Fixed>)
        requires
            self.initialized(),
        ensures
            units_of(r) == standing_index(*self, variant),
    {
        match variant {
            Variant::MeanWeighted => maintainability_from_means(
                self.metrics[3].mean.mean,
                self.metrics[11].mean.mean,
                self.metrics[12].mean.mean,
                self.metrics[1].mean.mean,
                self.metrics[13].mean.mean,
            ),
            Variant::OutlierWeighted { policy, inverted } => {
                let totals = outlier_sub_totals(self, policy);
                normalized_maintainability(totals.raw(), self.classes.len(), inverted)
            },
        }
    }

    /// Puts the figures of the project into a row, as they stand.
    pub fn assemble_report(&self, variant: Variant) -> (r: ReportRow)
        requires
            self.initialized(),
        ensures
            r.di == self.di_proportion,
            units_of(r.mai) == standing_index(*self, variant),
            units_of(r.diw_mai) == maintainability_of_means(
                self.diw_cbo_mean.mean,
                self.metrics@[11].mean.mean,
                self.metrics@[12].mean.mean,
                self.metrics@[1].mean.mean,
                self.metrics@[13].mean.mean,
            ),
            units_of(r.reu) == series_reusability(
                self.metrics@[3].values@,
                self.metrics@[13].values@,
                self.metrics@[11].values@,
            ),
            r.loc == self.total_loc,
            r.cbo == self.metrics@[3].mean.mean,
            r.diw_cbo == self.diw_cbo_mean.mean,
            r.dit == self.metrics@[1].mean.mean,
            r.lcom == self.metrics@[5].mean.mean,
            r.noc == self.metrics@[2].mean.mean,
            r.wmc_nom == self.metrics@[0].mean.mean,
            r.dam == self.metrics@[11].mean.mean,
            r.moa == self.metrics@[12].mean.mean,
            r.mfa == self.metrics@[13].mean.mean,
    {
        ReportRow {
            di: self.di_proportion,
            mai: self.maintainability(variant),
            diw_mai: maintainability_from_means(
                self.diw_cbo_mean.mean,
                self.metrics[11].mean.mean,
                self.metrics[12].mean.mean,
                self.metrics[1].mean.mean,
                self.metrics[13].mean.mean,
            ),
            reu: self.reusability(),
            loc: self.total_loc,
            cbo: self.metrics[3].mean.mean,
            diw_cbo: self.diw_cbo_mean.mean,
            dit: self.metrics[1].mean.mean,
            lcom: self.metrics[5].mean.mean,
            noc: self.metrics[2].mean.mean,
            wmc_nom: self.metrics[0].mean.mean,
            dam: self.metrics[11].mean.mean,
            moa: self.metrics[12].mean.mean,
            mfa: self.metrics[13].mean.mean,
        }
    }
}

impl ClassAndMetricStruct {
    /// Brings the aggregates up to date and puts the figures of the project
    /// into a row: every figure is the one that the values of the series and
    /// the classes determine.
    pub fn summarize(&mut self, variant: Variant) -> (r: ReportRow)
        requires
            old(self).wf(),
            old(self).initialized(),
        ensures
            final(self).wf(),
            final(self).initialized(),
            aggregated(*final(self)),
            project_model(*final(self)) == project_model(*old(self)),
            r@ == row_of(project_model(*old(self)), variant),
    {
        self.aggregate();
        let r = self.assemble_report(variant);
        proof {
            let model = project_model(*self);
            assert forall|k: int| 0 <= k < 19 implies (#[trigger] model.series[k])
                == self.metrics@[k].values@ by {}
            lemma_series_outliers(self.metrics@[0], BoundPolicy::Inclusive);
            lemma_series_outliers(self.metrics@[1], BoundPolicy::Inclusive);
            lemma_series_outliers(self.metrics@[2], BoundPolicy::Inclusive);
            lemma_series_outliers(self.metrics@[3], BoundPolicy::Inclusive);
            lemma_series_outliers(self.metrics@[5], BoundPolicy::Inclusive);
            lemma_series_outliers(self.metrics@[0], BoundPolicy::Exclusive);
            lemma_series_outliers(self.metrics@[1], BoundPolicy::Exclusive);
            lemma_series_outliers(self.metrics@[2], BoundPolicy::Exclusive);
            lemma_series_outliers(self.metrics@[3], BoundPolicy::Exclusive);
            lemma_series_outliers(self.metrics@[5], BoundPolicy::Exclusive);
            assert(model.series[3] == self.metrics@[3].values@);
            assert(model.series[11] == self.metrics@[11].values@);
            assert(model.series[12] == self.metrics@[12].values@);
            assert(model.series[13] == self.metrics@[13].values@);
            assert(model.series[1] == self.metrics@[1].values@);
            assert(model.series[10] == self.metrics@[10].values@);
            assert(units_of(r.mai) == index_of(model, variant));
        }
        r
    }
}

/// The row of a project, from the lines that the analyser printed for its
/// classes, the names of its classes and the bean classes of its wiring
/// files. The row is a function of these alone: the same text gives the same
/// row.
pub fn analyze(
    lines: &Vec<String>,
    class_names: &Vec<String>,
    xml_di_classes: &Vec<String>,
    variant: Variant,
) -> (r: ReportRow)
    ensures
        r@ == report_of(
            lines.deep_view(),
            class_names.deep_view(),
            xml_di_classes.deep_view(),
            variant,
        ),
{
    let mut project = ClassAndMetricStruct::new();
    project.initialize_metrics();
    proof {
        assert(project_model(project).series =~= empty_project().series) by {
            assert forall|k: int| 0 <= k < 19 implies project_model(project).series[k]
                =~= Seq::<Fixed>::empty() by {
                assert(project.metrics@[k].values@.len() == 0);
            }
        }
        assert(project_model(project).classes =~= empty_project().classes);
    }
    project.process_lines(lines, class_names, xml_di_classes);
    project.summarize(variant)
}

/// The columns of a row, in the order of the report: the mean-weighted
/// variant reports the share of injection, the two indices, the lines of code
/// and the means that the indices rest on; the outlier-weighted variant
/// reports the index, the reusability and the means of the metrics that it
/// weighs.
pub open spec fn columns_of(variant: Variant) -> Seq<Column> {
    match variant {
        Variant::MeanWeighted => seq![
            Column::Di,
            Column::Mai,
            Column::DiwMai,
            Column::Loc,
            Column::Cbo,
            Column::DiwCbo,
            Column::Dam,
            Column::Moa,
            Column::Dit,
            Column::Mfa,
        ],
        Variant::OutlierWeighted { .. } => seq![
            Column::Di,
            Column::Mai,
            Column::Reu,
            Column::Loc,
            Column::Cbo,
            Column::DiwCbo,
            Column::Dit,
            Column::Lcom,
            Column::Noc,
            Column::WmcNom,
        ],
    }
}

/// The figure of a row in a column; the lines of code are never missing.
pub open spec fn cell_of(row: ReportRow, column: Column) -> Option<Fixed> {
    match column {
        Column::Di => row.di,
        Column::Mai => row.mai,
        Column::DiwMai => row.diw_mai,
        Column::Reu => row.reu,
        Column::Loc => Some(row.loc),
        Column::Cbo => row.cbo,
        Column::DiwCbo => row.diw_cbo,
        Column::Dit => row.dit,
        Column::Lcom => row.lcom,
        Column::Noc => row.noc,
        Column::WmcNom => row.wmc_nom,
        Column::Dam => row.dam,
        Column::Moa => row.moa,
        Column::Mfa => row.mfa,
    }
}

/// The header of a column.
pub open spec fn label_of(column: Column) -> Seq<char> {
    match column {
        Column::Di => "DI"@,
        Column::Mai => "MAI"@,
        Column::DiwMai => "DIW-MAI"@,
        Column::Reu => "REU"@,
        Column::Loc => "LOC"@,
        Column::Cbo => "CBO"@,
        Column::DiwCbo => "DIW-CBO"@,
        Column::Dit => "DIT"@,
        Column::Lcom => "LCOM"@,
        Column::Noc => "NOC"@,
        Column::WmcNom => "WMC-NOM"@,
        Column::Dam => "DAM"@,
        Column::Moa => "MOA"@,
        Column::Mfa => "MFA"@,
    }
}

/// Whether a figure that the variant reports is missing in the row.
pub open spec fn has_missing(row: ReportRow, variant: Variant) -> bool {
    exists|i: int|
        0 <= i < columns_of(variant).len() && #[trigger] cell_of(row, columns_of(variant)[i])
            is None
}

impl Column {
    /// The header of the column.
    pub fn label(self) -> (r: &'static str)
        ensures
            r@ == label_of(self),
    {
        match self {
            Column::Di => "DI",
            Column::Mai => "MAI",
            Column::DiwMai => "DIW-MAI",
            Column::Reu => "REU",
            Column::Loc => "LOC",
            Column::Cbo => "CBO",
            Column::DiwCbo => "DIW-CBO",
            Column::Dit => "DIT",
            Column::Lcom => "LCOM",
            Column::Noc => "NOC",
            Column::WmcNom => "WMC-NOM",
            Column::Dam => "DAM",
            Column::Moa => "MOA",
            Column::Mfa => "MFA",
        }
    }
}

impl Variant {
    /// The columns that the variant reports, in order.
    pub fn columns(self) -> (r: Vec<Column>)
        ensures
            r@ == columns_of(self),
    {
        let mut r: Vec<Column> = Vec::new();
        r.push(Column::Di);
        r.push(Column::Mai);
        match self {
            Variant::MeanWeighted => {
                r.push(Column::DiwMai);
                r.push(Column::Loc);
                r.push(Column::Cbo);
                r.push(Column::DiwCbo);
                r.push(Column::Dam);
                r.push(Column::Moa);
                r.push(Column::Dit);
                r.push(Column::Mfa);
            },
            Variant::OutlierWeighted { .. } => {
                r.push(Column::Reu);
                r.push(Column::Loc);
                r.push(Column::Cbo);
                r.push(Column::DiwCbo);
                r.push(Column::Dit);
                r.push(Column::Lcom);
                r.push(Column::Noc);
                r.push(Column::WmcNom);
            },
        }
        proof {
            assert(r@ =~= columns_of(self));
        }
        r
    }
}

impl ReportRow {
    /// The figure in a column.
    pub fn cell(&self, column: Column) -> (r: Option<Fixed>)
        ensures
            r == cell_of(*self, column),
    {
        match column {
            Column::Di => self.di,
            Column::Mai => self.mai,
            Column::DiwMai => self.diw_mai,
            Column::Reu => self.reu,
            Column::Loc => Some(self.loc),
            Column::Cbo => self.cbo,
            Column::DiwCbo => self.diw_cbo,
            Column::Dit => self.dit,
            Column::Lcom => self.lcom,
            Column::Noc => self.noc,
            Column::WmcNom => self.wmc_nom,
            Column::Dam => self.dam,
            Column::Moa => self.moa,
            Column::Mfa => self.mfa,
        }
    }

    /// The figures that the variant reports, where the project has a class and
    /// none of the figures is missing; else the reason why not.
    pub fn figures(&self, variant: Variant, class_count: usize) -> (r: Result<
        Vec<Fixed>,
        DegenerateProjectError,
    >)
        ensures
            r == Err::<Vec<Fixed>, DegenerateProjectError>(DegenerateProjectError::NoClasses)
                <==> class_count == 0,
            r == Err::<Vec<Fixed>, DegenerateProjectError>(DegenerateProjectError::NoMetricSamples)
                <==> class_count > 0 && has_missing(*self, variant),
            r matches Ok(figures) ==> {
                &&& figures@.len() == columns_of(variant).len()
                &&& forall|i: int|
                    0 <= i < figures@.len() ==> cell_of(*self, columns_of(variant)[i]) == Some(
                        #[trigger] figures@[i],
                    )
            },
    {
        if class_count == 0 {
            return Err(DegenerateProjectError::NoClasses);
        }
        let columns = variant.columns();
        let mut figures: Vec<Fixed> = Vec::new();
        let mut i: usize = 0;
        while i < columns.len()
            invariant
                i <= columns@.len(),
                columns@ == columns_of(variant),
                class_count > 0,
                figures@.len() == i,
                forall|k: int|
                    0 <= k < i ==> cell_of(*self, columns@[k]) == Some(#[trigger] figures@[k]),
            decreases columns@.len() - i,
        {
            let cell = self.cell(columns[i]);
            match cell {
                Some(value) => {
                    figures.push(value);
                },
                None => {
                    proof {
                        let at = i as int;
                        assert(columns@[at] == columns_of(variant)[at]);
                        assert(cell_of(*self, columns_of(variant)[at]) is None);
                    }
                    return Err(DegenerateProjectError::NoMetricSamples);
                },
            }
            i = i + 1;
        }
        proof {
            assert forall|k: int| 0 <= k < columns_of(variant).len() implies !(#[trigger] cell_of(
                *self,
                columns_of(variant)[k],
            ) is None) by {
                assert(cell_of(*self, columns@[k]) == Some(figures@[k]));
            }
        }
        Ok(figures)
    }

    /// The figures that the variant reports, in the order of its columns.
    pub fn cells(&self, variant: Variant) -> (r: Vec<Option<Fixed>>)
        ensures
            r@.len() == columns_of(variant).len(),
            forall|i: int|
                0 <= i < r@.len() ==> #[trigger] r@[i] == cell_of(*self, columns_of(variant)[i]),
    {
        let columns = variant.columns();
        let mut r: Vec<Option<Fixed>> = Vec::new();
        let mut i: usize = 0;
        while i < columns.len()
            invariant
                i <= columns@.len(),
                columns@ == columns_of(variant),
                r@.len() == i,
                forall|k: int| 0 <= k < i ==> #[trigger] r@[k] == cell_of(*self, columns@[k]),
            decreases columns@.len() - i,
        {
            r.push(self.cell(columns[i]));
            i = i + 1;
        }
        r
    }
}

} // verus!
