//! The aggregates of a project: per metric its values, range, mean and outlier
//! bounds; per class its couplings and how many of them are injected.

use crate::fixed::{clamp, floor_div, ratio_of, units_of, units_seq, Fixed};
use crate::names::{
    injected_names, injected_set, known_set, known_types, shared_names, shared_set,
};
use crate::schema::{Metric, METRIC_COUNT};
use vstd::prelude::*;

verus! {

/// The share of a range, in hundredths, that lies beyond each outlier bound.
pub const OUTLIER_PERCENT: i128 = 15;

/// What one injected dependency takes off a class's coupling: one half.
pub const DI_DISCOUNT_UNITS: i128 = 500_000;

/// The smaller of two numbers.
pub open spec fn lesser(a: int, b: int) -> int {
    if a <= b {
        a
    } else {
        b
    }
}

/// The larger of two numbers.
pub open spec fn greater(a: int, b: int) -> int {
    if a >= b {
        a
    } else {
        b
    }
}

/// The sum of the values, in units.
pub open spec fn sum_units(values: Seq<Fixed>) -> int
    decreases values.len(),
{
    if values.len() == 0 {
        0
    } else {
        sum_units(values.drop_last()) + values.last()@
    }
}

/// The smallest of the values, in units; the largest number that can be held
/// where there is none.
pub open spec fn lowest(values: Seq<Fixed>) -> int
    decreases values.len(),
{
    if values.len() == 0 {
        i64::MAX as int
    } else {
        lesser(lowest(values.drop_last()), values.last()@)
    }
}

/// The largest of the values, in units; the smallest number that can be held
/// where there is none.
pub open spec fn highest(values: Seq<Fixed>) -> int
    decreases values.len(),
{
    if values.len() == 0 {
        i64::MIN as int
    } else {
        greater(highest(values.drop_last()), values.last()@)
    }
}

/// The width of the tail beyond each outlier bound of the range from `min` to
/// `max`: fifteen hundredths of the range, rounded down.
pub open spec fn tail_width(min: int, max: int) -> int {
    ((max - min) * 15) / 100
}

/// The lower outlier bound of the range from `min` to `max`.
pub open spec fn low_bound(min: int, max: int) -> int {
    min + tail_width(min, max)
}

/// The upper outlier bound of the range from `min` to `max`.
pub open spec fn high_bound(min: int, max: int) -> int {
    max - tail_width(min, max)
}

/// The outlier bounds of a series: none while it has no value, else the lower
/// and the upper bound of its range.
pub open spec fn limits_of(values: Seq<Fixed>) -> Seq<int> {
    if values.len() == 0 {
        Seq::empty()
    } else {
        seq![
            low_bound(lowest(values), highest(values)),
            high_bound(lowest(values), highest(values)),
        ]
    }
}

/// The mean of `count` values that add up to `acc` units, rounded down; none
/// of no values.
pub open spec fn mean_of(acc: int, count: nat) -> Option<int> {
    if count == 0 {
        None
    } else {
        Some(clamp(acc / (count as int)))
    }
}

/// A class's coupling with one half taken off for each of its `di_params`
/// injected dependencies.
pub open spec fn weighted_cbo(cbo: int, di_params: nat) -> int {
    clamp(cbo - di_params * 500_000)
}

/// The outlier bounds of a range lie inside it, the lower below the upper.
pub proof fn lemma_bounds_within_range(min: int, max: int)
    requires
        min <= max,
    ensures
        min <= low_bound(min, max) <= high_bound(min, max) <= max,
{
    let d = max - min;
    assert(0 <= (d * 15) / 100 && 2 * ((d * 15) / 100) <= d) by (nonlinear_arith)
        requires
            d >= 0,
    ;
}

/// The range of a series that has a value holds every value of it.
pub proof fn lemma_range_holds_values(values: Seq<Fixed>)
    ensures
        forall|i: int|
            0 <= i < values.len() ==> lowest(values) <= (#[trigger] values[i])@ <= highest(
                values,
            ),
        values.len() > 0 ==> i64::MIN <= lowest(values) <= highest(values) <= i64::MAX,
        values.len() > 0 ==> exists|i: int|
            0 <= i < values.len() && (#[trigger] values[i])@ == lowest(values),
        values.len() > 0 ==> exists|i: int|
            0 <= i < values.len() && (#[trigger] values[i])@ == highest(values),
    decreases values.len(),
{
    if values.len() > 0 {
        let init = values.drop_last();
        lemma_range_holds_values(init);
        assert forall|i: int| 0 <= i < values.len() implies lowest(values) <= (
        #[trigger] values[i])@ <= highest(values) by {
            if i < init.len() {
                assert(init[i] == values[i]);
            }
        }
        let last = values.len() - 1;
        if init.len() > 0 {
            let a = choose|i: int| 0 <= i < init.len() && (#[trigger] init[i])@ == lowest(init);
            let b = choose|i: int| 0 <= i < init.len() && (#[trigger] init[i])@ == highest(init);
            assert(values[a] == init[a] && values[b] == init[b]);
            if values[last]@ <= lowest(init) {
                assert(values[last]@ == lowest(values));
            } else {
                assert(values[a]@ == lowest(values));
            }
            if values[last]@ >= highest(init) {
                assert(values[last]@ == highest(values));
            } else {
                assert(values[b]@ == highest(values));
            }
        } else {
            assert(values[last]@ == lowest(values));
            assert(values[last]@ == highest(values));
        }
    }
}

/// The mean of a series that has a value lies within its range.
pub proof fn lemma_mean_within_range(values: Seq<Fixed>)
    requires
        values.len() > 0,
    ensures
        mean_of(sum_units(values), values.len()) is Some,
        lowest(values) <= mean_of(sum_units(values), values.len())->0 <= highest(values),
{
    lemma_range_holds_values(values);
    lemma_sum_within_range(values, lowest(values), highest(values));
    let n = values.len() as int;
    let sum = sum_units(values);
    let low = lowest(values);
    let high = highest(values);
    assert(low <= sum / n <= high) by (nonlinear_arith)
        requires
            n > 0,
            n * low <= sum <= n * high,
    ;
}

/// A sum of values between two bounds lies between as many times the bounds.
pub proof fn lemma_sum_within_range(values: Seq<Fixed>, low: int, high: int)
    requires
        forall|i: int| 0 <= i < values.len() ==> low <= (#[trigger] values[i])@ <= high,
    ensures
        values.len() * low <= sum_units(values) <= values.len() * high,
    decreases values.len(),
{
    if values.len() > 0 {
        let init = values.drop_last();
        assert forall|i: int| 0 <= i < init.len() implies low <= (#[trigger] init[i])@ <= high by {
            assert(init[i] == values[i]);
        }
        lemma_sum_within_range(init, low, high);
        let n = init.len() as int;
        assert(values[values.len() - 1] == values.last());
        assert((n + 1) * low == n * low + low && (n + 1) * high == n * high + high)
            by (nonlinear_arith);
    } else {
        assert(0 * low == 0 && 0 * high == 0);
    }
}

/// The smallest and the largest value seen.
#[derive(Debug)]
pub struct MetricRange {
    pub min: Fixed,
    pub max: Fixed,
}

impl MetricRange {
    /// Widens the range so that it holds `value`.
    pub fn update_min_max(&mut self, value: Fixed)
        ensures
            final(self).min@ == lesser(old(self).min@, value@),
            final(self).max@ == greater(old(self).max@, value@),
    {
        if value.units < self.min.units {
            self.min = value;
        }
        if value.units > self.max.units {
            self.max = value;
        }
    }
}

/// A running sum with the number of values added, and the mean once it has
/// been computed.
#[derive(Debug)]
pub struct MetricMean {
    /// The sum of the values, in units.
    pub acc: i128,
    /// How many values were added.
    pub count: u64,
    /// The mean as last computed; none before that, and none of no values.
    pub mean: Option<Fixed>,
}

impl MetricMean {
    /// The sum is one that `count` numbers can have.
    pub open spec fn wf(&self) -> bool {
        self.count * i64::MIN <= self.acc <= self.count * i64::MAX
    }

    /// A sum of no values.
    pub fn new() -> (r: MetricMean)
        ensures
            r.acc == 0,
            r.count == 0,
            r.mean is None,
            r.wf(),
    {
        MetricMean { acc: 0, count: 0, mean: None }
    }

    /// Adds one value to the sum.
    pub fn add_value(&mut self, value: Fixed)
        requires
            old(self).wf(),
            old(self).count < u64::MAX,
        ensures
            final(self).acc == old(self).acc + value@,
            final(self).count == old(self).count + 1,
            final(self).mean == old(self).mean,
            final(self).wf(),
    {
        self.acc = self.acc + value.units as i128;
        self.count = self.count + 1;
    }

    /// Sets the mean to the sum divided by the count, rounded down, or to
    /// none where nothing was added.
    pub fn compute_mean(&mut self)
        ensures
            units_of(final(self).mean) == mean_of(old(self).acc as int, old(self).count as nat),
            final(self).acc == old(self).acc,
            final(self).count == old(self).count,
    {
        if self.count == 0 {
            self.mean = None;
        } else {
            self.mean = Some(Fixed::saturating(floor_div(self.acc, self.count as i128)));
        }
    }
}

/// One metric over the classes of a project.
#[derive(Debug)]
pub struct MetricsData {
    /// The values, in the order in which the classes were read.
    pub values: Vec<Fixed>,
    /// The smallest and the largest of the values.
    pub range: MetricRange,
    /// Their sum, count and mean.
    pub mean: MetricMean,
    /// The lower and the upper outlier bound, once generated.
    pub limits: Vec<Fixed>,
}

impl MetricsData {
    /// Range, sum and count are those of the values.
    pub open spec fn wf(&self) -> bool {
        &&& self.mean.count == self.values@.len()
        &&& self.mean.acc == sum_units(self.values@)
        &&& self.range.min@ == lowest(self.values@)
        &&& self.range.max@ == highest(self.values@)
    }

    /// A series without values.
    pub fn new() -> (r: MetricsData)
        ensures
            r.values@.len() == 0,
            r.limits@.len() == 0,
            r.mean.mean is None,
            r.wf(),
    {
        MetricsData {
            values: Vec::new(),
            range: MetricRange { min: Fixed::max_value(), max: Fixed::min_value() },
            mean: MetricMean::new(),
            limits: Vec::new(),
        }
    }

    /// Appends a value and takes it into range, sum and count.
    pub fn add_metric_value(&mut self, value: Fixed)
        requires
            old(self).wf(),
        ensures
            final(self).values@ == old(self).values@.push(value),
            final(self).limits == old(self).limits,
            final(self).mean.mean == old(self).mean.mean,
            final(self).wf(),
    {
        proof {
            lemma_sum_within_range(self.values@, i64::MIN as int, i64::MAX as int);
        }
        self.values.push(value);
        // the count before this value lies below the length, which fits
        let length: usize = self.values.len();
        assert(self.mean.count < length);
        self.range.update_min_max(value);
        self.mean.add_value(value);
        proof {
            assert(self.values@.drop_last() =~= old(self).values@);
        }
    }

    /// Sets the outlier bounds from the range: the lower bound lies fifteen
    /// hundredths of the range above the minimum, the upper as far below the
    /// maximum. A series without values gets no bounds.
    pub fn generate_limits(&mut self)
        requires
            old(self).wf(),
        ensures
            units_seq(final(self).limits@) == limits_of(old(self).values@),
            final(self).values == old(self).values,
            final(self).range == old(self).range,
            final(self).mean == old(self).mean,
            final(self).limits@.len() == 2 ==> {
                &&& lowest(old(self).values@) <= final(self).limits@[0]@
                &&& final(self).limits@[0]@ <= final(self).limits@[1]@
                &&& final(self).limits@[1]@ <= highest(old(self).values@)
            },
    {
        let mut limits: Vec<Fixed> = Vec::new();
        if self.values.len() > 0 {
            proof {
                lemma_range_holds_values(self.values@);
                lemma_bounds_within_range(self.range.min@, self.range.max@);
            }
            let min: i128 = self.range.min.units as i128;
            let max: i128 = self.range.max.units as i128;
            let tail: i128 = floor_div((max - min) * OUTLIER_PERCENT, 100);
            limits.push(Fixed::saturating(min + tail));
            limits.push(Fixed::saturating(max - tail));
        }
        self.limits = limits;
        proof {
            assert(units_seq(self.limits@) =~= limits_of(self.values@));
        }
    }

    /// Sets the mean of the series from its sum and count.
    pub fn compute_mean(&mut self)
        ensures
            units_of(final(self).mean.mean) == mean_of(
                old(self).mean.acc as int,
                old(self).mean.count as nat,
            ),
            final(self).mean.acc == old(self).mean.acc,
            final(self).mean.count == old(self).mean.count,
            final(self).values == old(self).values,
            final(self).range == old(self).range,
            final(self).limits == old(self).limits,
    {
        self.mean.compute_mean();
    }
}

/// Injection never raises a coupling: the weighted coupling of a class is at
/// most its coupling, whatever the number of injected dependencies.
pub proof fn lemma_weighted_cbo_at_most_cbo(cbo: Fixed, di_params: nat)
    ensures
        weighted_cbo(cbo@, di_params) <= cbo@,
{
}

/// What is known of one class: its parameter and field types, its coupling,
/// and what follows from them for injection.
#[derive(Debug)]
pub struct ClassData {
    /// The types of the parameters of its constructors and setters.
    pub method_params: Vec<String>,
    /// The types of its fields.
    pub field_types: Vec<String>,
    /// Its coupling between objects, as last reported.
    pub cbo: Fixed,
    /// How many of its dependencies are injected.
    pub di_params: usize,
    /// Its coupling, one half taken off for each injected dependency.
    pub diw_cbo: Fixed,
}

impl ClassData {
    /// A class of which nothing is known yet.
    pub fn new() -> (r: ClassData)
        ensures
            r.method_params@.len() == 0,
            r.field_types@.len() == 0,
            r.cbo@ == 0,
            r.di_params == 0,
            r.diw_cbo@ == 0,
    {
        ClassData {
            method_params: Vec::new(),
            field_types: Vec::new(),
            cbo: Fixed::zero(),
            di_params: 0,
            diw_cbo: Fixed::zero(),
        }
    }

    /// Adds a parameter type.
    pub fn add_method_param(&mut self, param: String)
        ensures
            final(self).method_params@ == old(self).method_params@.push(param),
            final(self).field_types == old(self).field_types,
            final(self).cbo == old(self).cbo,
            final(self).di_params == old(self).di_params,
            final(self).diw_cbo == old(self).diw_cbo,
    {
        self.method_params.push(param);
    }

    /// Adds a field type.
    pub fn add_field_type(&mut self, field_type: String)
        ensures
            final(self).field_types@ == old(self).field_types@.push(field_type),
            final(self).method_params == old(self).method_params,
            final(self).cbo == old(self).cbo,
            final(self).di_params == old(self).di_params,
            final(self).diw_cbo == old(self).diw_cbo,
    {
        self.field_types.push(field_type);
    }

    /// Sets the coupling: a later report replaces an earlier one.
    pub fn add_cbo(&mut self, value: Fixed)
        ensures
            final(self).cbo == value,
            final(self).method_params == old(self).method_params,
            final(self).field_types == old(self).field_types,
            final(self).di_params == old(self).di_params,
            final(self).diw_cbo == old(self).diw_cbo,
    {
        self.cbo = value;
    }

    /// Counts the injected dependencies of the class and weights its coupling
    /// by them. A dependency is injected where its type is a parameter type
    /// of the class or a wired bean class, a class of the project, and a field
    /// type of the class; a name counts once however often it is listed.
    pub fn compute_class_di_metrics(
        &mut self,
        class_names: &Vec<String>,
        xml_di_classes: &Vec<String>,
    )
        ensures
            final(self).di_params == injected_set(
                old(self).method_params.deep_view(),
                xml_di_classes.deep_view(),
                old(self).field_types.deep_view(),
                class_names.deep_view(),
            ).len(),
            final(self).diw_cbo@ == weighted_cbo(old(self).cbo@, final(self).di_params as nat),
            final(self).diw_cbo@ <= final(self).cbo@,
            final(self).cbo == old(self).cbo,
            final(self).method_params == old(self).method_params,
            final(self).field_types == old(self).field_types,
    {
        let injected = injected_names(
            &self.method_params,
            xml_di_classes,
            &self.field_types,
            class_names,
        );
        self.di_params = injected.len();
        self.diw_cbo = Fixed::saturating(
            self.cbo.units as i128 - (self.di_params as i128) * DI_DISCOUNT_UNITS,
        );
    }

    /// Counts the injected dependencies of the class where neither the
    /// project's class names nor wired bean classes are at hand: the names that
    /// are both a field type and a parameter type. Weights the coupling as
    /// [`ClassData::compute_class_di_metrics`] does.
    pub fn compute_shared_di_metrics(&mut self)
        ensures
            final(self).di_params == shared_set(
                old(self).field_types.deep_view(),
                old(self).method_params.deep_view(),
            ).len(),
            final(self).diw_cbo@ == weighted_cbo(old(self).cbo@, final(self).di_params as nat),
            final(self).diw_cbo@ <= final(self).cbo@,
            final(self).cbo == old(self).cbo,
            final(self).method_params == old(self).method_params,
            final(self).field_types == old(self).field_types,
    {
        let shared = shared_names(&self.field_types, &self.method_params);
        self.di_params = shared.len();
        self.diw_cbo = Fixed::saturating(
            self.cbo.units as i128 - (self.di_params as i128) * DI_DISCOUNT_UNITS,
        );
    }

    /// Whether the class uses injection by the cruder count: more than one of
    /// its field and parameter types is a class of the project.
    pub fn uses_di_by_known_types(&self, class_names: &Vec<String>) -> (r: bool)
        ensures
            r == (known_set(
                self.field_types.deep_view(),
                self.method_params.deep_view(),
                class_names.deep_view(),
            ).len() > 1),
    {
        known_types(&self.field_types, &self.method_params, class_names).len() > 1
    }

    /// Whether the class has any injected dependency, as last counted.
    pub fn uses_di(&self) -> (r: bool)
        ensures
            r == (self.di_params > 0),
    {
        self.di_params > 0
    }
}

/// A class under its simple name.
#[derive(Debug)]
pub struct ClassEntry {
    /// The name of the class, without its package.
    pub name: String,
    /// What is known of the class.
    pub data: ClassData,
}

/// A class as the contracts see it: its names by their characters, its
/// numbers in units.
pub struct ClassModel {
    pub name: Seq<char>,
    pub method_params: Seq<Seq<char>>,
    pub field_types: Seq<Seq<char>>,
    pub cbo: int,
    pub di_params: nat,
    pub diw_cbo: int,
}

/// The model of one class.
pub open spec fn class_model(entry: ClassEntry) -> ClassModel {
    ClassModel {
        name: entry.name@,
        method_params: entry.data.method_params.deep_view(),
        field_types: entry.data.field_types.deep_view(),
        cbo: entry.data.cbo@,
        di_params: entry.data.di_params as nat,
        diw_cbo: entry.data.diw_cbo@,
    }
}

/// The models of the classes, in order.
pub open spec fn class_models(classes: Seq<ClassEntry>) -> Seq<ClassModel> {
    Seq::new(classes.len(), |i: int| class_model(classes[i]))
}

/// Where the class of that name stands among `classes`: the index of the
/// first one so named, or their number where none is.
pub open spec fn position_of(classes: Seq<ClassModel>, name: Seq<char>) -> nat
    decreases classes.len(),
{
    if classes.len() == 0 || classes[0].name == name {
        0
    } else {
        1 + position_of(classes.drop_first(), name)
    }
}

/// A class of which only the name is known.
pub open spec fn fresh_class(name: Seq<char>) -> ClassModel {
    ClassModel {
        name,
        method_params: Seq::empty(),
        field_types: Seq::empty(),
        cbo: 0,
        di_params: 0,
        diw_cbo: 0,
    }
}

/// The classes with one of that name among them: added at the end, with only
/// the name known, where there was none.
pub open spec fn with_class(classes: Seq<ClassModel>, name: Seq<char>) -> Seq<ClassModel> {
    if position_of(classes, name) < classes.len() {
        classes
    } else {
        classes.push(fresh_class(name))
    }
}

/// An index `i` with the name, before which no class has it, is the position
/// of the name; so is the number of classes where none has it.
pub proof fn lemma_position_of(classes: Seq<ClassModel>, name: Seq<char>, i: int)
    requires
        0 <= i <= classes.len(),
        forall|k: int| 0 <= k < i ==> (#[trigger] classes[k]).name != name,
        i == classes.len() || classes[i].name == name,
    ensures
        position_of(classes, name) == i,
    decreases classes.len(),
{
    if classes.len() > 0 && i > 0 {
        let rest = classes.drop_first();
        assert(classes[0].name != name);
        assert forall|k: int| 0 <= k < i - 1 implies (#[trigger] rest[k]).name != name by {
            assert(rest[k] == classes[k + 1]);
        }
        lemma_position_of(rest, name, i - 1);
    }
}

/// How many of the classes use injection by the cruder count: more than one
/// of the field and parameter types of the class is a class of the project.
pub open spec fn crude_di_classes(classes: Seq<ClassModel>, class_names: Seq<Seq<char>>) -> nat
    decreases classes.len(),
{
    if classes.len() == 0 {
        0
    } else {
        crude_di_classes(classes.drop_last(), class_names) + if known_set(
            classes.last().field_types,
            classes.last().method_params,
            class_names,
        ).len() > 1 {
            1nat
        } else {
            0nat
        }
    }
}

/// The share of the classes that use injection by the cruder count; none of
/// no classes.
pub open spec fn crude_di_share_of(classes: Seq<ClassModel>, class_names: Seq<Seq<char>>) -> Option<
    int,
> {
    if classes.len() == 0 {
        None
    } else {
        Some(
            clamp(
                ((crude_di_classes(classes, class_names) as int) * 1_000_000) / (
                classes.len() as int),
            ),
        )
    }
}

/// The sums over the classes of a project.
pub struct ClassTotals {
    /// The number of injected dependencies.
    pub di_params: int,
    /// The couplings, in units.
    pub cbo: int,
    /// The weighted couplings, in units.
    pub diw_cbo: int,
}

/// The sums over `classes` of the injected dependencies, the couplings and the
/// weighted couplings.
pub open spec fn class_totals(classes: Seq<ClassModel>) -> ClassTotals
    decreases classes.len(),
{
    if classes.len() == 0 {
        ClassTotals { di_params: 0, cbo: 0, diw_cbo: 0 }
    } else {
        let earlier = class_totals(classes.drop_last());
        let last = classes.last();
        ClassTotals {
            di_params: earlier.di_params + last.di_params,
            cbo: earlier.cbo + last.cbo,
            diw_cbo: earlier.diw_cbo + last.diw_cbo,
        }
    }
}

/// The injected dependencies of a project, as a number of units.
pub open spec fn di_couplings_of(classes: Seq<ClassModel>) -> int {
    clamp(class_totals(classes).di_params * 1_000_000)
}

/// The couplings of a project, in units.
pub open spec fn total_couplings_of(classes: Seq<ClassModel>) -> int {
    clamp(class_totals(classes).cbo)
}

/// The share of the couplings of a project that are injected; none where the
/// couplings add up to zero.
pub open spec fn di_proportion_of(classes: Seq<ClassModel>) -> Option<int> {
    ratio_of(di_couplings_of(classes), total_couplings_of(classes))
}

/// Taking one class out of a list takes its numbers out of the sums.
pub proof fn lemma_class_totals_remove(classes: Seq<ClassModel>, i: int)
    requires
        0 <= i < classes.len(),
    ensures
        class_totals(classes).di_params == class_totals(classes.remove(i)).di_params
            + classes[i].di_params,
        class_totals(classes).cbo == class_totals(classes.remove(i)).cbo + classes[i].cbo,
        class_totals(classes).diw_cbo == class_totals(classes.remove(i)).diw_cbo
            + classes[i].diw_cbo,
    decreases classes.len(),
{
    if i == classes.len() - 1 {
        assert(classes.remove(i) =~= classes.drop_last());
    } else {
        lemma_class_totals_remove(classes.drop_last(), i);
        assert(classes.remove(i).drop_last() =~= classes.drop_last().remove(i));
        assert(classes.remove(i).last() == classes.last());
    }
}

/// The sums over the classes do not depend on the order of the classes.
pub proof fn lemma_class_totals_order(a: Seq<ClassModel>, b: Seq<ClassModel>)
    requires
        a.to_multiset() == b.to_multiset(),
    ensures
        class_totals(a) == class_totals(b),
    decreases a.len(),
{
    broadcast use vstd::seq_lib::group_to_multiset_ensures;

    assert(a.len() == b.len()) by {
        a.to_multiset_ensures();
        b.to_multiset_ensures();
    }
    if a.len() > 0 {
        let x = a.last();
        a.to_multiset_ensures();
        b.to_multiset_ensures();
        assert(a.contains(x));
        assert(b.to_multiset().count(x) > 0);
        assert(b.contains(x));
        let j = choose|j: int| 0 <= j < b.len() && b[j] == x;
        assert(a.drop_last() =~= a.remove(a.len() - 1));
        assert(a.remove(a.len() - 1).to_multiset() =~= a.to_multiset().remove(x));
        assert(b.remove(j).to_multiset() =~= b.to_multiset().remove(x));
        lemma_class_totals_order(a.drop_last(), b.remove(j));
        lemma_class_totals_remove(b, j);
    }
}

/// The injected share of the couplings does not depend on the order in which
/// the classes were read: it is the same for any two lists that hold the same
/// classes equally often.
pub proof fn lemma_di_proportion_order(a: Seq<ClassModel>, b: Seq<ClassModel>)
    requires
        a.to_multiset() == b.to_multiset(),
    ensures
        di_proportion_of(a) == di_proportion_of(b),
        di_couplings_of(a) == di_couplings_of(b),
        total_couplings_of(a) == total_couplings_of(b),
{
    lemma_class_totals_order(a, b);
}

/// The sums over the classes lie within what their number allows.
pub proof fn lemma_class_totals_bounds(classes: Seq<ClassModel>)
    requires
        forall|i: int|
            0 <= i < classes.len() ==> {
                &&& (#[trigger] classes[i]).di_params <= 0xffff_ffff_ffff_ffff
                &&& i64::MIN <= classes[i].cbo <= i64::MAX
                &&& i64::MIN <= classes[i].diw_cbo <= i64::MAX
            },
    ensures
        0 <= class_totals(classes).di_params <= classes.len() * 0xffff_ffff_ffff_ffff,
        classes.len() * i64::MIN <= class_totals(classes).cbo <= classes.len() * i64::MAX,
        classes.len() * i64::MIN <= class_totals(classes).diw_cbo <= classes.len() * i64::MAX,
    decreases classes.len(),
{
    if classes.len() > 0 {
        let init = classes.drop_last();
        assert forall|i: int| 0 <= i < init.len() implies {
            &&& (#[trigger] init[i]).di_params <= 0xffff_ffff_ffff_ffff
            &&& i64::MIN <= init[i].cbo <= i64::MAX
            &&& i64::MIN <= init[i].diw_cbo <= i64::MAX
        } by {
            assert(init[i] == classes[i]);
        }
        lemma_class_totals_bounds(init);
        assert(classes.last() == classes[classes.len() - 1]);
    }
}

/// A project: one series per metric, the classes, and what is summed over
/// them.
#[derive(Debug)]
pub struct ClassAndMetricStruct {
    /// The series of each metric, by its position in a record; empty until
    /// the series are set up.
    pub metrics: Vec<MetricsData>,
    /// The classes, each under its own name.
    pub classes: Vec<ClassEntry>,
    /// The lines of code of the project.
    pub total_loc: Fixed,
    /// The number of injected dependencies of the project.
    pub di_couplings: Fixed,
    /// The couplings of the project.
    pub total_couplings: Fixed,
    /// The share of the couplings that are injected; none where the couplings
    /// add up to zero, and before it is generated.
    pub di_proportion: Option<Fixed>,
    /// Sum, count and mean of the weighted couplings of the classes.
    pub diw_cbo_mean: MetricMean,
}

impl ClassAndMetricStruct {
    /// Whether the series are set up: one for each metric of a record.
    pub open spec fn initialized(&self) -> bool {
        self.metrics@.len() == METRIC_COUNT
    }

    /// The series are all there or none is, each is consistent, no two
    /// classes share a name, and the lines of code are those of their series.
    pub open spec fn wf(&self) -> bool {
        &&& self.metrics@.len() == 0 || self.metrics@.len() == METRIC_COUNT
        &&& forall|k: int| 0 <= k < self.metrics@.len() ==> (#[trigger] self.metrics@[k]).wf()
        &&& forall|i: int, j: int|
            0 <= i < j < self.classes@.len() ==> (#[trigger] self.classes@[i]).name@ != (
            #[trigger] self.classes@[j]).name@
        &&& self.total_loc@ == if self.initialized() {
            clamp(sum_units(self.metrics@[10].values@))
        } else {
            0
        }
    }

    /// A project without series and without classes.
    pub fn new() -> (r: ClassAndMetricStruct)
        ensures
            r.wf(),
            r.metrics@.len() == 0,
            r.classes@.len() == 0,
            r.total_loc@ == 0,
            r.di_couplings@ == 0,
            r.total_couplings@ == 0,
            r.di_proportion is None,
            r.diw_cbo_mean.acc == 0,
            r.diw_cbo_mean.count == 0,
            r.diw_cbo_mean.mean is None,
    {
        ClassAndMetricStruct {
            metrics: Vec::new(),
            classes: Vec::new(),
            total_loc: Fixed::zero(),
            di_couplings: Fixed::zero(),
            total_couplings: Fixed::zero(),
            di_proportion: None,
            diw_cbo_mean: MetricMean::new(),
        }
    }

    /// Sets up an empty series for each metric of a record, in place of any
    /// that were there.
    pub fn initialize_metrics(&mut self)
        requires
            old(self).wf(),
        ensures
            final(self).wf(),
            final(self).initialized(),
            forall|k: int|
                0 <= k < METRIC_COUNT ==> {
                    &&& (#[trigger] final(self).metrics@[k]).values@.len() == 0
                    &&& final(self).metrics@[k].limits@.len() == 0
                    &&& final(self).metrics@[k].mean.mean is None
                },
            final(self).classes == old(self).classes,
            final(self).di_couplings == old(self).di_couplings,
            final(self).total_couplings == old(self).total_couplings,
            final(self).di_proportion == old(self).di_proportion,
            final(self).diw_cbo_mean == old(self).diw_cbo_mean,
    {
        let mut metrics: Vec<MetricsData> = Vec::new();
        let mut k: usize = 0;
        while k < METRIC_COUNT
            invariant
                k <= METRIC_COUNT,
                metrics@.len() == k,
                forall|i: int|
                    0 <= i < k ==> {
                        &&& (#[trigger] metrics@[i]).wf()
                        &&& metrics@[i].values@.len() == 0
                        &&& metrics@[i].limits@.len() == 0
                        &&& metrics@[i].mean.mean is None
                    },
            decreases METRIC_COUNT - k,
        {
            metrics.push(MetricsData::new());
            k = k + 1;
        }
        self.metrics = metrics;
        self.total_loc = Fixed::zero();
    }

    /// The index of the first class of that name, if there is one.
    pub fn find_class(&self, name: &str) -> (r: Option<usize>)
        ensures
            match r {
                Some(i) => {
                    &&& i < self.classes@.len()
                    &&& self.classes@[i as int].name@ == name@
                    &&& forall|k: int| 0 <= k < i ==> (#[trigger] self.classes@[k]).name@ != name@
                },
                None => forall|k: int|
                    0 <= k < self.classes@.len() ==> (#[trigger] self.classes@[k]).name@
                        != name@,
            },
    {
        let key: String = name.to_owned();
        let mut i: usize = 0;
        while i < self.classes.len()
            invariant
                i <= self.classes@.len(),
                key@ == name@,
                forall|k: int| 0 <= k < i ==> (#[trigger] self.classes@[k]).name@ != name@,
            decreases self.classes@.len() - i,
        {
            if self.classes[i].name == key {
                return Some(i);
            }
            i = i + 1;
        }
        None
    }

    /// The index of the class of that name; a class not seen before is added
    /// at the end, with nothing known of it.
    pub fn open_class(&mut self, name: &str) -> (index: usize)
        requires
            old(self).wf(),
        ensures
            final(self).wf(),
            index < final(self).classes@.len(),
            final(self).classes@[index as int].name@ == name@,
            index == position_of(class_models(old(self).classes@), name@),
            class_models(final(self).classes@) == with_class(
                class_models(old(self).classes@),
                name@,
            ),
            index < old(self).classes@.len() ==> final(self).classes == old(self).classes,
            index >= old(self).classes@.len() ==> {
                &&& index == old(self).classes@.len()
                &&& final(self).classes@.len() == index + 1
                &&& final(self).classes@.take(index as int) == old(self).classes@
                &&& final(self).classes@[index as int].data.method_params@.len() == 0
                &&& final(self).classes@[index as int].data.field_types@.len() == 0
                &&& final(self).classes@[index as int].data.cbo@ == 0
                &&& final(self).classes@[index as int].data.di_params == 0
                &&& final(self).classes@[index as int].data.diw_cbo@ == 0
                &&& forall|k: int|
                    0 <= k < index ==> (#[trigger] old(self).classes@[k]).name@ != name@
            },
            final(self).metrics == old(self).metrics,
            final(self).total_loc == old(self).total_loc,
            final(self).di_couplings == old(self).di_couplings,
            final(self).total_couplings == old(self).total_couplings,
            final(self).di_proportion == old(self).di_proportion,
            final(self).diw_cbo_mean == old(self).diw_cbo_mean,
    {
        let ghost models = class_models(self.classes@);
        match self.find_class(name) {
            Some(i) => {
                proof {
                    lemma_position_of(models, name@, i as int);
                }
                i
            },
            None => {
                let index: usize = self.classes.len();
                proof {
                    lemma_position_of(models, name@, index as int);
                }
                self.classes.push(ClassEntry { name: name.to_owned(), data: ClassData::new() });
                proof {
                    assert(self.classes@.take(index as int) =~= old(self).classes@);
                    assert(class_models(self.classes@) =~= models.push(fresh_class(name@))) by {
                        assert forall|k: int| 0 <= k < index implies class_models(
                            self.classes@,
                        )[k] == models[k] by {
                            assert(self.classes@[k] == old(self).classes@[k]);
                        }
                        let added = self.classes@[index as int];
                        assert(added.data.method_params.deep_view() =~= Seq::empty());
                        assert(added.data.field_types.deep_view() =~= Seq::empty());
                    }
                    assert forall|i: int, j: int|
                        0 <= i < j < self.classes@.len() implies (#[trigger] self.classes@[i]).name@
                        != (#[trigger] self.classes@[j]).name@ by {
                        assert(self.classes@[i] == old(self).classes@[i]);
                        if j < index {
                            assert(self.classes@[j] == old(self).classes@[j]);
                        }
                    }
                }
                index
            },
        }
    }

    /// The series of a metric.
    pub fn series(&self, metric: Metric) -> (r: &MetricsData)
        requires
            self.initialized(),
        ensures
            *r == self.metrics@[metric.spec_position() as int],
    {
        &self.metrics[metric.position()]
    }

    /// Adds a value to the series at `position`.
    pub fn add_metric_value(&mut self, position: usize, value: Fixed)
        requires
            old(self).wf(),
            old(self).initialized(),
            position < METRIC_COUNT,
        ensures
            final(self).wf(),
            final(self).initialized(),
            final(self).metrics@[position as int].values@ == old(self).metrics@[position as int].values@.push(
                value,
            ),
            final(self).metrics@[position as int].limits == old(self).metrics@[position as int].limits,
            final(self).metrics@[position as int].mean.mean == old(
                self,
            ).metrics@[position as int].mean.mean,
            forall|k: int|
                0 <= k < METRIC_COUNT && k != position ==> #[trigger] final(self).metrics@[k]
                    == old(self).metrics@[k],
            final(self).classes == old(self).classes,
            final(self).di_couplings == old(self).di_couplings,
            final(self).total_couplings == old(self).total_couplings,
            final(self).di_proportion == old(self).di_proportion,
            final(self).diw_cbo_mean == old(self).diw_cbo_mean,
    {
        self.metrics[position].add_metric_value(value);
        if position == 10 {
            self.total_loc = Fixed::saturating(self.metrics[position].mean.acc);
        }
    }

    /// Sums the injected dependencies, the couplings and the weighted
    /// couplings over the classes, and sets the injected share of the
    /// couplings. What an earlier call had summed is replaced.
    pub fn generate_di_metrics(&mut self)
        ensures
            final(self).di_couplings@ == di_couplings_of(class_models(old(self).classes@)),
            final(self).total_couplings@ == total_couplings_of(class_models(old(self).classes@)),
            units_of(final(self).di_proportion) == di_proportion_of(
                class_models(old(self).classes@),
            ),
            final(self).diw_cbo_mean.acc == class_totals(class_models(old(self).classes@)).diw_cbo,
            final(self).diw_cbo_mean.count == old(self).classes@.len(),
            final(self).diw_cbo_mean.mean is None,
            final(self).diw_cbo_mean.wf(),
            final(self).classes == old(self).classes,
            final(self).metrics == old(self).metrics,
            final(self).total_loc == old(self).total_loc,
    {
        let n: usize = self.classes.len();
        let mut di: u128 = 0;
        let mut total: i128 = 0;
        let mut mean = MetricMean::new();
        let mut i: usize = 0;
        let ghost models = class_models(self.classes@);
        while i < n
            invariant
                i <= n == self.classes@.len(),
                *self == *old(self),
                models == class_models(self.classes@),
                di == class_totals(models.take(i as int)).di_params,
                total == class_totals(models.take(i as int)).cbo,
                mean.acc == class_totals(models.take(i as int)).diw_cbo,
                mean.count == i,
                mean.mean is None,
                mean.wf(),
            decreases n - i,
        {
            proof {
                lemma_class_totals_bounds(models.take(i as int));
                lemma_class_totals_bounds(models.take(i + 1));
                assert(models.take(i + 1).drop_last() =~= models.take(i as int));
                assert(models.take(i + 1).last() == class_model(self.classes@[i as int]));
            }
            di = di + self.classes[i].data.di_params as u128;
            total = total + self.classes[i].data.cbo.units as i128;
            mean.add_value(self.classes[i].data.diw_cbo);
            i = i + 1;
        }
        proof {
            assert(models.take(n as int) =~= models);
        }
        self.di_couplings = if di > 9_223_372_036_854_775_807 {
            Fixed::max_value()
        } else {
            Fixed::saturating((di as i128) * 1_000_000)
        };
        self.total_couplings = Fixed::saturating(total);
        self.di_proportion = self.di_couplings.ratio(self.total_couplings);
        self.diw_cbo_mean = mean;
    }

    /// The share of the classes that use injection by the cruder count: the
    /// classes of which more than one field or parameter type is a class of
    /// the project, over all classes. None of no classes.
    pub fn crude_di_share(&self, class_names: &Vec<String>) -> (r: Option<Fixed>)
        ensures
            units_of(r) == crude_di_share_of(class_models(self.classes@), class_names.deep_view()),
    {
        let n: usize = self.classes.len();
        let ghost models = class_models(self.classes@);
        let mut count: usize = 0;
        let mut i: usize = 0;
        while i < n
            invariant
                i <= n == self.classes@.len(),
                models == class_models(self.classes@),
                count <= i,
                count == crude_di_classes(models.take(i as int), class_names.deep_view()),
            decreases n - i,
        {
            proof {
                assert(models.take(i + 1).drop_last() =~= models.take(i as int));
                assert(models.take(i + 1).last() == class_model(self.classes@[i as int]));
            }
            if self.classes[i].data.uses_di_by_known_types(class_names) {
                count = count + 1;
            }
            i = i + 1;
        }
        proof {
            assert(models.take(n as int) =~= models);
        }
        if n == 0 {
            None
        } else {
            Some(Fixed::saturating(floor_div((count as i128) * 1_000_000, n as i128)))
        }
    }

    /// Sets the outlier bounds of every series from its range.
    pub fn generate_limits(&mut self)
        requires
            old(self).wf(),
        ensures
            final(self).wf(),
            final(self).metrics@.len() == old(self).metrics@.len(),
            forall|k: int|
                0 <= k < old(self).metrics@.len() ==> {
                    &&& units_seq((#[trigger] final(self).metrics@[k]).limits@) == limits_of(
                        old(self).metrics@[k].values@,
                    )
                    &&& final(self).metrics@[k].values == old(self).metrics@[k].values
                    &&& final(self).metrics@[k].range == old(self).metrics@[k].range
                    &&& final(self).metrics@[k].mean == old(self).metrics@[k].mean
                },
            final(self).classes == old(self).classes,
            final(self).total_loc == old(self).total_loc,
            final(self).di_couplings == old(self).di_couplings,
            final(self).total_couplings == old(self).total_couplings,
            final(self).di_proportion == old(self).di_proportion,
            final(self).diw_cbo_mean == old(self).diw_cbo_mean,
    {
        let n: usize = self.metrics.len();
        let mut i: usize = 0;
        while i < n
            invariant
                i <= n == self.metrics@.len() == old(self).metrics@.len(),
                forall|k: int|
                    0 <= k < i ==> {
                        &&& units_seq((#[trigger] self.metrics@[k]).limits@) == limits_of(
                            old(self).metrics@[k].values@,
                        )
                        &&& self.metrics@[k].values == old(self).metrics@[k].values
                        &&& self.metrics@[k].range == old(self).metrics@[k].range
                        &&& self.metrics@[k].mean == old(self).metrics@[k].mean
                    },
                forall|k: int| i <= k < n ==> #[trigger] self.metrics@[k] == old(self).metrics@[k],
                old(self).wf(),
                self.classes == old(self).classes,
                self.total_loc == old(self).total_loc,
                self.di_couplings == old(self).di_couplings,
                self.total_couplings == old(self).total_couplings,
                self.di_proportion == old(self).di_proportion,
                self.diw_cbo_mean == old(self).diw_cbo_mean,
            decreases n - i,
        {
            self.metrics[i].generate_limits();
            i = i + 1;
        }
    }

    /// Sets the mean of every series, and that of the weighted couplings,
    /// from its sum and count.
    pub fn compute_means(&mut self)
        ensures
            final(self).metrics@.len() == old(self).metrics@.len(),
            forall|k: int|
                0 <= k < old(self).metrics@.len() ==> {
                    &&& units_of((#[trigger] final(self).metrics@[k]).mean.mean) == mean_of(
                        old(self).metrics@[k].mean.acc as int,
                        old(self).metrics@[k].mean.count as nat,
                    )
                    &&& final(self).metrics@[k].mean.acc == old(self).metrics@[k].mean.acc
                    &&& final(self).metrics@[k].mean.count == old(self).metrics@[k].mean.count
                    &&& final(self).metrics@[k].values == old(self).metrics@[k].values
                    &&& final(self).metrics@[k].range == old(self).metrics@[k].range
                    &&& final(self).metrics@[k].limits == old(self).metrics@[k].limits
                },
            units_of(final(self).diw_cbo_mean.mean) == mean_of(
                old(self).diw_cbo_mean.acc as int,
                old(self).diw_cbo_mean.count as nat,
            ),
            final(self).diw_cbo_mean.acc == old(self).diw_cbo_mean.acc,
            final(self).diw_cbo_mean.count == old(self).diw_cbo_mean.count,
            final(self).classes == old(self).classes,
            final(self).total_loc == old(self).total_loc,
            final(self).di_couplings == old(self).di_couplings,
            final(self).total_couplings == old(self).total_couplings,
            final(self).di_proportion == old(self).di_proportion,
            old(self).wf() ==> final(self).wf(),
    {
        let n: usize = self.metrics.len();
        let mut i: usize = 0;
        while i < n
            invariant
                i <= n == self.metrics@.len() == old(self).metrics@.len(),
                forall|k: int|
                    0 <= k < i ==> {
                        &&& units_of((#[trigger] self.metrics@[k]).mean.mean) == mean_of(
                            old(self).metrics@[k].mean.acc as int,
                            old(self).metrics@[k].mean.count as nat,
                        )
                        &&& self.metrics@[k].mean.acc == old(self).metrics@[k].mean.acc
                        &&& self.metrics@[k].mean.count == old(self).metrics@[k].mean.count
                        &&& self.metrics@[k].values == old(self).metrics@[k].values
                        &&& self.metrics@[k].range == old(self).metrics@[k].range
                        &&& self.metrics@[k].limits == old(self).metrics@[k].limits
                    },
                forall|k: int| i <= k < n ==> #[trigger] self.metrics@[k] == old(self).metrics@[k],
                self.classes == old(self).classes,
                self.total_loc == old(self).total_loc,
                self.di_couplings == old(self).di_couplings,
                self.total_couplings == old(self).total_couplings,
                self.di_proportion == old(self).di_proportion,
                self.diw_cbo_mean == old(self).diw_cbo_mean,
            decreases n - i,
        {
            self.metrics[i].compute_mean();
            i = i + 1;
        }
        self.diw_cbo_mean.compute_mean();
    }
}

} // verus!
