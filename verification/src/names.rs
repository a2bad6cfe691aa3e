//! Node names: which names denote ground or a supply rail, the distinct names of a
//! list in order of first mention, and tables keyed by name.

use vstd::prelude::*;
use vstd::string::*;
use crate::text::{views, lemma_views_push, lowercase, to_lowercase, text_is};

verus! {

/// A lower-cased node name that denotes the ground reference.
pub open spec fn is_ground_label(lower: Seq<char>) -> bool {
    lower == "gnd"@ || lower == "ground"@ || lower == "0"@
}

/// A lower-cased node name that denotes a power supply rail.
pub open spec fn is_supply_label(lower: Seq<char>) -> bool {
    lower == "vcc"@ || lower == "5v"@ || lower == "3v3"@ || lower == "9v"@
}

/// A lower-cased node name that may have any number of connections.
pub open spec fn is_rail_label(lower: Seq<char>) -> bool {
    lower == "gnd"@ || lower == "ground"@ || lower == "vcc"@ || lower == "0"@
}

/// A node name that denotes ground, whatever its case.
pub open spec fn is_ground_node(name: Seq<char>) -> bool {
    is_ground_label(lowercase(name))
}

/// Whether a lower-cased node name denotes ground ("gnd", "ground" or "0").
pub fn is_ground_label_text(lower: &String) -> (r: bool)
    ensures
        r == is_ground_label(lower@),
{
    text_is(lower, "gnd") || text_is(lower, "ground") || text_is(lower, "0")
}

/// Whether a lower-cased node name denotes a supply rail ("vcc", "5v", "3v3" or "9v").
pub fn is_supply_label_text(lower: &String) -> (r: bool)
    ensures
        r == is_supply_label(lower@),
{
    text_is(lower, "vcc") || text_is(lower, "5v") || text_is(lower, "3v3") || text_is(lower, "9v")
}

/// Whether a lower-cased node name may have any number of connections
/// ("gnd", "ground", "vcc" or "0").
pub fn is_rail_label_text(lower: &String) -> (r: bool)
    ensures
        r == is_rail_label(lower@),
{
    text_is(lower, "gnd") || text_is(lower, "ground") || text_is(lower, "vcc") || text_is(
        lower,
        "0",
    )
}

/// Whether `name` denotes ground: its lower-case form is "gnd", "ground" or "0".
pub fn is_ground_name(name: &str) -> (r: bool)
    ensures
        r == is_ground_node(name@),
{
    let lower = to_lowercase(name);
    is_ground_label_text(&lower)
}

/// Whether `name`'s lower-case form is one of the supply rail names.
pub fn is_supply_name(name: &str) -> (r: bool)
    ensures
        r == is_supply_label(lowercase(name@)),
{
    let lower = to_lowercase(name);
    is_supply_label_text(&lower)
}

/// Whether `name`'s lower-case form is one of the names exempt from the floating check.
pub fn is_rail_name(name: &str) -> (r: bool)
    ensures
        r == is_rail_label(lowercase(name@)),
{
    let lower = to_lowercase(name);
    is_rail_label_text(&lower)
}

/// The distinct elements of `s`, each where it first occurs.
pub open spec fn first_occurrences<A>(s: Seq<A>) -> Seq<A>
    decreases s.len(),
{
    if s.len() == 0 {
        seq![]
    } else {
        let d = first_occurrences(s.drop_last());
        if d.contains(s.last()) {
            d
        } else {
            d.push(s.last())
        }
    }
}

/// The number of times `x` occurs in `s`.
pub open spec fn occurrences<A>(s: Seq<A>, x: A) -> nat
    decreases s.len(),
{
    if s.len() == 0 {
        0
    } else {
        occurrences(s.drop_last(), x) + if s.last() == x {
            1nat
        } else {
            0nat
        }
    }
}

/// `first_occurrences(s)` holds each element of `s` exactly once.
pub proof fn lemma_first_occurrences<A>(s: Seq<A>)
    ensures
        first_occurrences(s).no_duplicates(),
        forall|x: A| first_occurrences(s).contains(x) <==> s.contains(x),
    decreases s.len(),
{
    if s.len() > 0 {
        lemma_first_occurrences(s.drop_last());
        let d = first_occurrences(s.drop_last());
        assert forall|x: A| first_occurrences(s).contains(x) <==> s.contains(x) by {
            if s.contains(x) {
                let k = choose|k: int| 0 <= k < s.len() && s[k] == x;
                if k < s.len() - 1 {
                    assert(s.drop_last()[k] == x);
                }
            }
            if s.drop_last().contains(x) {
                let k = choose|k: int| 0 <= k < s.len() - 1 && s.drop_last()[k] == x;
                assert(s[k] == x);
            }
            if !d.contains(s.last()) {
                assert(d.push(s.last())[d.len() as int] == s.last());
                if d.push(s.last()).contains(x) {
                    let k = choose|k: int| 0 <= k < d.len() + 1 && d.push(s.last())[k] == x;
                    if k < d.len() {
                        assert(d[k] == x);
                    }
                }
                if d.contains(x) {
                    let k = choose|k: int| 0 <= k < d.len() && d[k] == x;
                    assert(d.push(s.last())[k] == x);
                }
            }
            assert(s[s.len() - 1] == s.last());
        }
    }
}

/// `occurrences(s.push(x), y)` counts the new element.
pub proof fn lemma_occurrences_push<A>(s: Seq<A>, x: A, y: A)
    ensures
        occurrences(s.push(x), y) == occurrences(s, y) + if x == y {
            1nat
        } else {
            0nat
        },
{
    assert(s.push(x).drop_last() =~= s);
}

/// The first position of the string whose characters are `x`'s in `v`, if any.
pub fn position_of(v: &Vec<String>, x: &str) -> (r: Option<usize>)
    ensures
        r matches Some(i) ==> i < v@.len() && v@[i as int]@ == x@ && forall|j: int|
            0 <= j < i ==> v@[j]@ != x@,
        r is None ==> !views(v@).contains(x@),
{
    let key = String::from_str(x);
    let mut i: usize = 0;
    while i < v.len()
        invariant
            i <= v@.len(),
            key@ == x@,
            forall|j: int| 0 <= j < i ==> v@[j]@ != x@,
        decreases v.len() - i,
    {
        if v[i] == key {
            return Some(i);
        }
        i = i + 1;
    }
    proof {
        if views(v@).contains(x@) {
            let j = choose|j: int| 0 <= j < views(v@).len() && views(v@)[j] == x@;
            assert(v@[j]@ == x@);
        }
    }
    None
}

/// The distinct strings of `v`, each where it first occurs.
pub fn distinct_in_order(v: &Vec<String>) -> (r: Vec<String>)
    ensures
        views(r@) == first_occurrences(views(v@)),
{
    let mut r: Vec<String> = Vec::new();
    let mut i: usize = 0;
    while i < v.len()
        invariant
            i <= v@.len(),
            views(r@) == first_occurrences(views(v@).take(i as int)),
        decreases v.len() - i,
    {
        let ghost s = views(v@).take(i + 1);
        assert(s.drop_last() =~= views(v@).take(i as int));
        assert(s.last() == v@[i as int]@);
        match position_of(&r, v[i].as_str()) {
            Some(k) => {
                assert(views(r@)[k as int] == s.last());
                assert(views(r@).contains(s.last()));
            },
            None => {
                let ghost r0 = r@;
                r.push(v[i].clone());
                proof {
                    lemma_views_push(r0, v@[i as int]);
                }
            },
        }
        i = i + 1;
    }
    assert(views(v@).take(i as int) =~= views(v@));
    r
}

} // verus!
