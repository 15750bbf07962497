//! Lists of type names, read as sets.
//!
//! A class's parameter types, its field types, the bean classes of the wiring
//! files and the class names of the project all arrive as lists in which a
//! name may occur many times. What counts is which names occur at all. The
//! list operations themselves are those of `array_tool` and `itertools`; this
//! module states what they return and proves what follows for the sets.

use array_tool::vec::{Intersect, Union};
use itertools::Itertools;
use vstd::prelude::*;

verus! {

/// A list of names, each taken by its characters.
pub type Names = Seq<Seq<char>>;

/// The names of `s` in the order in which each occurs first, each once.
pub open spec fn first_occurrences(s: Names) -> Names
    decreases s.len(),
{
    if s.len() == 0 {
        Seq::empty()
    } else {
        let earlier = first_occurrences(s.drop_last());
        if s.drop_last().contains(s.last()) {
            earlier
        } else {
            earlier.push(s.last())
        }
    }
}

/// The names of `s` that also occur in `other`, in the order of `s`.
pub open spec fn common(s: Names, other: Names) -> Names
    decreases s.len(),
{
    if s.len() == 0 {
        Seq::empty()
    } else {
        let earlier = common(s.drop_last(), other);
        if other.contains(s.last()) {
            earlier.push(s.last())
        } else {
            earlier
        }
    }
}

/// The names that reach a class by injection: those among its parameter types
/// or the wired bean classes that are classes of the project and are also
/// field types of the class.
pub open spec fn injected_set(
    method_params: Names,
    xml_di_classes: Names,
    field_types: Names,
    class_names: Names,
) -> Set<Seq<char>> {
    method_params.to_set().union(xml_di_classes.to_set()).intersect(
        class_names.to_set(),
    ).intersect(field_types.to_set().intersect(class_names.to_set()))
}

/// The injected names of a class as a list: its parameter types, then the
/// wired bean classes, each where it occurs first, as far as they are classes
/// of the project and field types of the class.
pub open spec fn injected_list(
    method_params: Names,
    xml_di_classes: Names,
    field_types: Names,
    class_names: Names,
) -> Names {
    common(common(first_occurrences(method_params + xml_di_classes), class_names), field_types)
}

/// The names that are both a field type and a parameter type of a class.
pub open spec fn shared_set(field_types: Names, method_params: Names) -> Set<Seq<char>> {
    field_types.to_set().intersect(method_params.to_set())
}

/// `first_occurrences` keeps every name of the list and repeats none.
pub proof fn lemma_first_occurrences(s: Names)
    ensures
        first_occurrences(s).no_duplicates(),
        forall|x: Seq<char>| #[trigger] first_occurrences(s).contains(x) <==> s.contains(x),
    decreases s.len(),
{
    broadcast use vstd::seq_lib::group_seq_properties;

    if s.len() > 0 {
        let init = s.drop_last();
        let earlier = first_occurrences(init);
        lemma_first_occurrences(init);
        assert(s =~= init.push(s.last()));
        assert forall|x: Seq<char>| #[trigger]
            first_occurrences(s).contains(x) <==> s.contains(x) by {
            assert(earlier.contains(x) <==> init.contains(x));
            assert(s.contains(x) <==> init.contains(x) || x == s.last());
        }
        if !init.contains(s.last()) {
            assert(!earlier.contains(s.last()));
            let grown = earlier.push(s.last());
            assert forall|i: int, j: int|
                0 <= i < grown.len() && 0 <= j < grown.len() && i != j implies grown[i]
                != grown[j] by {
                if i < earlier.len() && j < earlier.len() {
                } else if i < earlier.len() {
                    assert(earlier.contains(earlier[i]));
                } else {
                    assert(earlier.contains(earlier[j]));
                }
            }
        }
    }
}

/// `common` keeps exactly the names that occur in both lists, and repeats
/// none where the first list repeats none.
pub proof fn lemma_common(s: Names, other: Names)
    ensures
        forall|x: Seq<char>| #[trigger]
            common(s, other).contains(x) <==> s.contains(x) && other.contains(x),
        s.no_duplicates() ==> common(s, other).no_duplicates(),
    decreases s.len(),
{
    broadcast use vstd::seq_lib::group_seq_properties;

    if s.len() > 0 {
        let init = s.drop_last();
        let earlier = common(init, other);
        lemma_common(init, other);
        assert(s =~= init.push(s.last()));
        assert forall|x: Seq<char>| #[trigger]
            common(s, other).contains(x) <==> s.contains(x) && other.contains(x) by {
            assert(earlier.contains(x) <==> init.contains(x) && other.contains(x));
            assert(s.contains(x) <==> init.contains(x) || x == s.last());
        }
        if s.no_duplicates() {
            assert forall|i: int, j: int|
                0 <= i < init.len() && 0 <= j < init.len() && i != j implies init[i]
                != init[j] by {
                assert(init[i] == s[i] && init[j] == s[j]);
            }
            assert(!init.contains(s.last())) by {
                if init.contains(s.last()) {
                    let k = choose|k: int| 0 <= k < init.len() && init[k] == s.last();
                    assert(s[k] == s[s.len() - 1]);
                }
            }
            if other.contains(s.last()) {
                assert(!earlier.contains(s.last()));
                let grown = earlier.push(s.last());
                assert forall|i: int, j: int|
                    0 <= i < grown.len() && 0 <= j < grown.len() && i != j implies grown[i]
                    != grown[j] by {
                    if i < earlier.len() && j < earlier.len() {
                    } else if i < earlier.len() {
                        assert(earlier.contains(earlier[i]));
                    } else {
                        assert(earlier.contains(earlier[j]));
                    }
                }
            }
        }
    }
}

/// The types of a class that are classes of the project: its field types and
/// its parameter types, as far as the project has a class of that name.
pub open spec fn known_set(field_types: Names, method_params: Names, class_names: Names) -> Set<
    Seq<char>,
> {
    field_types.to_set().union(method_params.to_set()).intersect(class_names.to_set())
}

/// A list that repeats no name is the list of its first occurrences.
pub proof fn lemma_first_occurrences_of_distinct(s: Names)
    requires
        s.no_duplicates(),
    ensures
        first_occurrences(s) == s,
    decreases s.len(),
{
    if s.len() > 0 {
        let init = s.drop_last();
        assert forall|i: int, j: int|
            0 <= i < init.len() && 0 <= j < init.len() && i != j implies init[i] != init[j] by {
            assert(init[i] == s[i] && init[j] == s[j]);
        }
        lemma_first_occurrences_of_distinct(init);
        assert(!init.contains(s.last())) by {
            if init.contains(s.last()) {
                let k = choose|k: int| 0 <= k < init.len() && init[k] == s.last();
                assert(s[k] == s[s.len() - 1]);
            }
        }
        assert(init.push(s.last()) =~= s);
    } else {
        assert(first_occurrences(s) =~= s);
    }
}

/// Two lists that hold the same names of `s` keep the same names of `s`.
pub proof fn lemma_common_by_content(s: Names, a: Names, b: Names)
    requires
        forall|i: int| 0 <= i < s.len() ==> (a.contains(#[trigger] s[i]) <==> b.contains(s[i])),
    ensures
        common(s, a) == common(s, b),
    decreases s.len(),
{
    if s.len() > 0 {
        let init = s.drop_last();
        assert forall|i: int| 0 <= i < init.len() implies (a.contains(#[trigger] init[i])
            <==> b.contains(init[i])) by {
            assert(init[i] == s[i]);
        }
        lemma_common_by_content(init, a, b);
        assert(s.last() == s[s.len() - 1]);
    }
}

/// `Union::union` of `array_tool`, on vectors: the names of `a` followed by
/// those of `b`, each kept where it occurs first.
#[verifier::external_body]
fn union_names(a: &Vec<String>, b: &Vec<String>) -> (r: Vec<String>)
    ensures
        r.deep_view() == first_occurrences(a.deep_view() + b.deep_view()),
{
    a.union(b.clone())
}

/// `Intersect::intersect` of `array_tool`, on vectors: the names of `a`, each
/// kept where it occurs first, that also occur in `b`.
#[verifier::external_body]
fn intersect_names(a: &Vec<String>, b: &Vec<String>) -> (r: Vec<String>)
    ensures
        r.deep_view() == common(first_occurrences(a.deep_view()), b.deep_view()),
{
    a.intersect(b.clone())
}

/// `Itertools::unique` of `itertools`, collected: the names of `a`, each kept
/// where it occurs first.
#[verifier::external_body]
fn unique_names(a: Vec<String>) -> (r: Vec<String>)
    ensures
        r.deep_view() == first_occurrences(a.deep_view()),
{
    a.into_iter().unique().collect()
}

/// The names of a list, each once, in the order in which each occurs first.
pub fn distinct_names(names: &Vec<String>) -> (r: Vec<String>)
    ensures
        r.deep_view() == first_occurrences(names.deep_view()),
        r.deep_view().no_duplicates(),
        r.deep_view().to_set() == names.deep_view().to_set(),
{
    let copy = names.clone();
    proof {
        let before = names.deep_view();
        assert(copy.deep_view() =~= before) by {
            assert(copy@.len() == names@.len());
            assert forall|i: int| 0 <= i < before.len() implies copy.deep_view()[i]
                == before[i] by {
                assert(copy@[i]@ == names@[i]@);
            }
        }
        lemma_first_occurrences(before);
    }
    let r = unique_names(copy);
    proof {
        assert(r.deep_view().to_set() =~= names.deep_view().to_set());
    }
    r
}

/// The injected names of a class, each once: see [`injected_list`] and
/// [`injected_set`]. With no wired bean classes the parameter types stand
/// alone.
pub fn injected_names(
    method_params: &Vec<String>,
    xml_di_classes: &Vec<String>,
    field_types: &Vec<String>,
    class_names: &Vec<String>,
) -> (r: Vec<String>)
    ensures
        r.deep_view() == injected_list(
            method_params.deep_view(),
            xml_di_classes.deep_view(),
            field_types.deep_view(),
            class_names.deep_view(),
        ),
        r.deep_view().no_duplicates(),
        r.deep_view().to_set() == injected_set(
            method_params.deep_view(),
            xml_di_classes.deep_view(),
            field_types.deep_view(),
            class_names.deep_view(),
        ),
        r.len() == injected_set(
            method_params.deep_view(),
            xml_di_classes.deep_view(),
            field_types.deep_view(),
            class_names.deep_view(),
        ).len(),
{
    let supplied = if xml_di_classes.len() > 0 {
        union_names(method_params, xml_di_classes)
    } else {
        method_params.clone()
    };
    let known_supplied = distinct_names(&intersect_names(&supplied, class_names));
    let known_fields = distinct_names(&intersect_names(field_types, class_names));
    let r = intersect_names(&known_supplied, &known_fields);
    proof {
        let m = method_params.deep_view();
        let x = xml_di_classes.deep_view();
        let f = field_types.deep_view();
        let c = class_names.deep_view();
        let s = supplied.deep_view();
        assert forall|n: Seq<char>| #[trigger] s.contains(n) <==> m.contains(n) || x.contains(
            n,
        ) by {
            if xml_di_classes.len() > 0 {
                lemma_first_occurrences(m + x);
                vstd::seq_lib::lemma_seq_concat_contains_all_elements(m, x, n);
            } else {
                assert(s =~= m) by {
                    assert(supplied@.len() == method_params@.len());
                    assert forall|i: int| 0 <= i < s.len() implies s[i] == m[i] by {
                        assert(supplied@[i]@ == method_params@[i]@);
                    }
                }
                assert(x.len() == 0);
            }
        }
        let s1 = first_occurrences(s);
        lemma_first_occurrences(s);
        let s2 = common(s1, c);
        lemma_common(s1, c);
        let ks = known_supplied.deep_view();
        lemma_first_occurrences(s2);
        let f1 = first_occurrences(f);
        lemma_first_occurrences(f);
        let f2 = common(f1, c);
        lemma_common(f1, c);
        let kf = known_fields.deep_view();
        lemma_first_occurrences(f2);
        let k1 = first_occurrences(ks);
        lemma_first_occurrences(ks);
        lemma_common(k1, kf);
        let out = r.deep_view();
        let target = injected_set(m, x, f, c);
        assert forall|n: Seq<char>| out.to_set().contains(n) <==> target.contains(n) by {
            assert(out.contains(n) <==> k1.contains(n) && kf.contains(n));
            assert(k1.contains(n) <==> ks.contains(n));
            assert(ks.contains(n) <==> s2.contains(n));
            assert(s2.contains(n) <==> s1.contains(n) && c.contains(n));
            assert(s1.contains(n) <==> s.contains(n));
            assert(kf.contains(n) <==> f2.contains(n));
            assert(f2.contains(n) <==> f1.contains(n) && c.contains(n));
            assert(f1.contains(n) <==> f.contains(n));
        }
        assert(out.to_set() =~= target);
        out.unique_seq_to_set();
        // the list itself: what is kept once stays as it is when kept again
        let all = first_occurrences(m + x);
        lemma_first_occurrences(m + x);
        if xml_di_classes.len() > 0 {
            lemma_first_occurrences_of_distinct(all);
        } else {
            assert(m + x =~= m);
        }
        assert(s1 == all);
        lemma_first_occurrences_of_distinct(s2);
        lemma_first_occurrences_of_distinct(f2);
        assert(k1 == s2 && kf == f2);
        assert forall|i: int| 0 <= i < s2.len() implies (f2.contains(#[trigger] s2[i])
            <==> f.contains(s2[i])) by {
            assert(s2.contains(s2[i]));
        }
        lemma_common_by_content(s2, f2, f);
    }
    r
}

/// The names that are both a field type and a parameter type of a class, each
/// once: see [`shared_set`].
pub fn shared_names(field_types: &Vec<String>, method_params: &Vec<String>) -> (r: Vec<String>)
    ensures
        r.deep_view() == common(
            first_occurrences(field_types.deep_view()),
            method_params.deep_view(),
        ),
        r.deep_view().no_duplicates(),
        r.deep_view().to_set() == shared_set(field_types.deep_view(), method_params.deep_view()),
        r.len() == shared_set(field_types.deep_view(), method_params.deep_view()).len(),
{
    let r = intersect_names(field_types, method_params);
    proof {
        let f = field_types.deep_view();
        let m = method_params.deep_view();
        lemma_first_occurrences(f);
        lemma_common(first_occurrences(f), m);
        let out = r.deep_view();
        assert forall|n: Seq<char>| out.to_set().contains(n) <==> shared_set(f, m).contains(
            n,
        ) by {
            assert(out.contains(n) <==> first_occurrences(f).contains(n) && m.contains(n));
            assert(first_occurrences(f).contains(n) <==> f.contains(n));
        }
        assert(out.to_set() =~= shared_set(f, m));
        out.unique_seq_to_set();
    }
    r
}

/// The types of a class that are classes of the project, each once: see
/// [`known_set`].
pub fn known_types(
    field_types: &Vec<String>,
    method_params: &Vec<String>,
    class_names: &Vec<String>,
) -> (r: Vec<String>)
    ensures
        r.deep_view() == common(
            first_occurrences(field_types.deep_view() + method_params.deep_view()),
            class_names.deep_view(),
        ),
        r.deep_view().no_duplicates(),
        r.deep_view().to_set() == known_set(
            field_types.deep_view(),
            method_params.deep_view(),
            class_names.deep_view(),
        ),
        r.len() == known_set(
            field_types.deep_view(),
            method_params.deep_view(),
            class_names.deep_view(),
        ).len(),
{
    let types = union_names(field_types, method_params);
    let r = intersect_names(&types, class_names);
    proof {
        let f = field_types.deep_view();
        let m = method_params.deep_view();
        let c = class_names.deep_view();
        let all = first_occurrences(f + m);
        lemma_first_occurrences(f + m);
        lemma_first_occurrences_of_distinct(all);
        lemma_common(all, c);
        let out = r.deep_view();
        assert forall|n: Seq<char>| out.to_set().contains(n) <==> known_set(f, m, c).contains(
            n,
        ) by {
            assert(out.contains(n) <==> all.contains(n) && c.contains(n));
            assert(all.contains(n) <==> (f + m).contains(n));
            vstd::seq_lib::lemma_seq_concat_contains_all_elements(f, m, n);
        }
        assert(out.to_set() =~= known_set(f, m, c));
        out.unique_seq_to_set();
    }
    r
}

} // verus!
