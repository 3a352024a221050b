use vstd::prelude::*;

use crate::response::Availability;

verus! {

/// A bookable slot: its sequence number among the available windows, in
/// response order, and its bounds as instants (epoch seconds, UTC).
#[derive(Clone, Copy, Debug, PartialEq, Eq, Structural)]
pub struct Appointment {
    pub id: usize,
    pub start: i64,
    pub end: i64,
}

/// The appointments of the available windows of `a`, numbered from 1 in
/// the order in which they stand in `a`.
pub open spec fn numbered(a: Seq<Availability>) -> Seq<Appointment>
    decreases a.len(),
{
    if a.len() == 0 {
        Seq::empty()
    } else {
        let before = numbered(a.drop_last());
        if a.last().available {
            before.push(Appointment { id: (before.len() + 1) as usize, start: a.last().start, end: a.last().end })
        } else {
            before
        }
    }
}

/// How many windows of `a` are available.
pub open spec fn available_count(a: Seq<Availability>) -> nat
    decreases a.len(),
{
    if a.len() == 0 {
        0
    } else {
        available_count(a.drop_last()) + if a.last().available { 1nat } else { 0nat }
    }
}

/// `x` placed into `s` after every item whose start is not later than its own.
pub open spec fn insert_by_start(s: Seq<Appointment>, x: Appointment) -> Seq<Appointment>
    decreases s.len(),
{
    if s.len() == 0 {
        seq![x]
    } else if x.start < s.last().start {
        insert_by_start(s.drop_last(), x).push(s.last())
    } else {
        s.push(x)
    }
}

/// The stable sort of `s` by start instant.
pub open spec fn sort_by_start(s: Seq<Appointment>) -> Seq<Appointment>
    decreases s.len(),
{
    if s.len() == 0 {
        s
    } else {
        insert_by_start(sort_by_start(s.drop_last()), s.last())
    }
}

/// The appointments that `a` yields, in the order in which they are listed.
pub open spec fn arranged(a: Seq<Availability>) -> Seq<Appointment> {
    sort_by_start(numbered(a))
}

/// Placing `x` at a split point `j` of `s` is what `insert_by_start` does.
proof fn lemma_insert_at_split(s: Seq<Appointment>, x: Appointment, j: int)
    requires
        0 <= j <= s.len(),
        forall|k: int| j <= k < s.len() ==> x.start < #[trigger] s[k].start,
        j == 0 || s[j - 1].start <= x.start,
    ensures
        insert_by_start(s, x) == s.insert(j, x),
    decreases s.len(),
{
    if s.len() == 0 {
        assert(s.insert(j, x) =~= seq![x]);
    } else if j == s.len() {
        assert(s.insert(j, x) =~= s.push(x));
    } else {
        let d = s.drop_last();
        assert(x.start < s[s.len() - 1].start);
        assert forall|k: int| j <= k < d.len() implies x.start < #[trigger] d[k].start by {
            assert(d[k] == s[k]);
        }
        lemma_insert_at_split(d, x, j);
        assert(d.insert(j, x).push(s.last()) =~= s.insert(j, x));
    }
}

/// `a` comes before `b`: it starts earlier, or at the same instant with a
/// lower sequence number.
pub open spec fn precedes(a: Appointment, b: Appointment) -> bool {
    a.start < b.start || (a.start == b.start && a.id < b.id)
}

/// Every item of `s` comes before every later item.
pub open spec fn ordered(s: Seq<Appointment>) -> bool {
    forall|i: int, j: int| 0 <= i < j < s.len() ==> precedes(#[trigger] s[i], #[trigger] s[j])
}

/// The start instants of `s` never decrease.
pub open spec fn sorted_by_start(s: Seq<Appointment>) -> bool {
    forall|i: int, j: int| 0 <= i < j < s.len() ==> #[trigger] s[i].start <= #[trigger] s[j].start
}

proof fn lemma_insert_keeps_items(s: Seq<Appointment>, x: Appointment)
    ensures
        insert_by_start(s, x).len() == s.len() + 1,
        insert_by_start(s, x).to_multiset() == s.to_multiset().insert(x),
    decreases s.len(),
{
    broadcast use vstd::seq_lib::group_to_multiset_ensures;

    if s.len() == 0 {
        assert(seq![x] =~= s.push(x));
    } else if x.start < s.last().start {
        let d = s.drop_last();
        lemma_insert_keeps_items(d, x);
        assert(s =~= d.push(s.last()));
        assert(insert_by_start(s, x).to_multiset() =~= s.to_multiset().insert(x));
    }
}

proof fn lemma_sort_keeps_items(s: Seq<Appointment>)
    ensures
        sort_by_start(s).len() == s.len(),
        sort_by_start(s).to_multiset() == s.to_multiset(),
    decreases s.len(),
{
    broadcast use vstd::seq_lib::group_to_multiset_ensures;

    if s.len() > 0 {
        let d = s.drop_last();
        lemma_sort_keeps_items(d);
        lemma_insert_keeps_items(sort_by_start(d), s.last());
        assert(s =~= d.push(s.last()));
    }
}

proof fn lemma_insert_ordered(s: Seq<Appointment>, x: Appointment)
    requires
        ordered(s),
        forall|k: int| 0 <= k < s.len() ==> #[trigger] s[k].id < x.id,
    ensures
        ordered(insert_by_start(s, x)),
    decreases s.len(),
{
    broadcast use vstd::seq_lib::group_to_multiset_ensures;

    if s.len() > 0 {
        let last = s.last();
        let d = s.drop_last();
        if x.start < last.start {
            lemma_insert_ordered(d, x);
            lemma_insert_keeps_items(d, x);
            let r = insert_by_start(d, x);
            assert forall|k: int| 0 <= k < r.len() implies precedes(#[trigger] r[k], last) by {
                let e = r[k];
                assert(r.to_multiset().count(e) > 0);
                if e != x {
                    assert(d.to_multiset().count(e) > 0);
                    let idx = choose|idx: int| 0 <= idx < d.len() && d[idx] == e;
                    assert(s[idx] == e);
                    assert(precedes(s[idx], s[s.len() - 1]));
                }
            }
            let t = r.push(last);
            assert forall|i: int, j: int| 0 <= i < j < t.len() implies precedes(#[trigger] t[i], #[trigger] t[j]) by {
                if j == t.len() - 1 {
                    assert(t[i] == r[i]);
                } else {
                    assert(t[i] == r[i] && t[j] == r[j]);
                }
            }
        } else {
            let t = s.push(x);
            assert forall|i: int, j: int| 0 <= i < j < t.len() implies precedes(#[trigger] t[i], #[trigger] t[j]) by {
                if j == t.len() - 1 {
                    if i < s.len() - 1 {
                        assert(precedes(s[i], s[s.len() - 1]));
                    }
                    assert(s[i].id < x.id);
                } else {
                    assert(t[i] == s[i] && t[j] == s[j]);
                }
            }
        }
    }
}

proof fn lemma_sort_ordered(s: Seq<Appointment>)
    requires
        forall|i: int, j: int| 0 <= i < j < s.len() ==> #[trigger] s[i].id < #[trigger] s[j].id,
    ensures
        ordered(sort_by_start(s)),
    decreases s.len(),
{
    broadcast use vstd::seq_lib::group_to_multiset_ensures;

    if s.len() > 0 {
        let d = s.drop_last();
        assert forall|i: int, j: int| 0 <= i < j < d.len() implies #[trigger] d[i].id < #[trigger] d[j].id by {
            assert(d[i] == s[i] && d[j] == s[j]);
        }
        lemma_sort_ordered(d);
        lemma_sort_keeps_items(d);
        let sd = sort_by_start(d);
        assert forall|k: int| 0 <= k < sd.len() implies #[trigger] sd[k].id < s.last().id by {
            assert(sd.to_multiset().count(sd[k]) > 0);
            assert(d.to_multiset().count(sd[k]) > 0);
            let idx = choose|idx: int| 0 <= idx < d.len() && d[idx] == sd[k];
            assert(s[idx] == sd[k]);
        }
        lemma_insert_ordered(sd, s.last());
    }
}

proof fn lemma_numbered_ids(a: Seq<Availability>)
    requires
        a.len() <= usize::MAX,
    ensures
        numbered(a).len() == available_count(a),
        numbered(a).len() <= a.len(),
        forall|k: int| 0 <= k < numbered(a).len() ==> #[trigger] numbered(a)[k].id == k + 1,
    decreases a.len(),
{
    if a.len() > 0 {
        lemma_numbered_ids(a.drop_last());
    }
}

/// The list holds one appointment for each available window, and no more.
pub proof fn lemma_one_per_available_window(a: Seq<Availability>)
    requires
        a.len() <= usize::MAX,
    ensures
        arranged(a).len() == available_count(a),
{
    lemma_numbered_ids(a);
    lemma_sort_keeps_items(numbered(a));
}

/// The available windows are numbered 1, 2, ... in the order of the
/// response, and sorting keeps each numbered appointment exactly once.
pub proof fn lemma_sequence_numbers(a: Seq<Availability>)
    requires
        a.len() <= usize::MAX,
    ensures
        forall|k: int| 0 <= k < numbered(a).len() ==> #[trigger] numbered(a)[k].id == k + 1,
        arranged(a).to_multiset() == numbered(a).to_multiset(),
{
    lemma_numbered_ids(a);
    lemma_sort_keeps_items(numbered(a));
}

/// The list is sorted by start; appointments that start together keep the
/// order of the response.
pub proof fn lemma_sorted_and_stable(a: Seq<Availability>)
    requires
        a.len() <= usize::MAX,
    ensures
        sorted_by_start(arranged(a)),
        forall|i: int, j: int|
            0 <= i < j < arranged(a).len() && arranged(a)[i].start == arranged(a)[j].start
                ==> #[trigger] arranged(a)[i].id < #[trigger] arranged(a)[j].id,
{
    lemma_numbered_ids(a);
    lemma_sort_ordered(numbered(a));
    let r = arranged(a);
    assert forall|i: int, j: int| 0 <= i < j < r.len() implies #[trigger] r[i].start <= #[trigger] r[j].start by {
        assert(precedes(r[i], r[j]));
    }
    assert forall|i: int, j: int| 0 <= i < j < r.len() && r[i].start == r[j].start implies #[trigger] r[i].id < #[trigger] r[j].id by {
        assert(precedes(r[i], r[j]));
    }
}

proof fn lemma_sort_of_sorted(s: Seq<Appointment>)
    requires
        sorted_by_start(s),
    ensures
        sort_by_start(s) == s,
    decreases s.len(),
{
    if s.len() > 0 {
        let d = s.drop_last();
        assert forall|i: int, j: int| 0 <= i < j < d.len() implies #[trigger] d[i].start <= #[trigger] d[j].start by {
            assert(d[i] == s[i] && d[j] == s[j]);
        }
        lemma_sort_of_sorted(d);
        if d.len() > 0 {
            assert(s[s.len() - 2].start <= s[s.len() - 1].start);
        }
        assert(d.push(s.last()) =~= s);
    }
}

/// Sorting the finished list once more gives the same list.
pub proof fn lemma_arranging_again_changes_nothing(a: Seq<Availability>)
    requires
        a.len() <= usize::MAX,
    ensures
        sort_by_start(arranged(a)) == arranged(a),
{
    lemma_sorted_and_stable(a);
    lemma_sort_of_sorted(arranged(a));
}

impl Appointment {
    pub fn new(id: usize, availability: &Availability) -> (r: Appointment)
        ensures
            r == (Appointment { id, start: availability.start, end: availability.end }),
    {
        Appointment { id, start: availability.start, end: availability.end }
    }
}

/// Places `x` into the sorted list `out`, after every item that does not
/// start later than it.
fn insert_sorted(out: &mut Vec<Appointment>, x: Appointment)
    ensures
        final(out)@ == insert_by_start(old(out)@, x),
{
    let mut j: usize = out.len();
    while j > 0 && x.start < out[j - 1].start
        invariant
            j <= out@.len(),
            forall|k: int| j <= k < out@.len() ==> x.start < #[trigger] out@[k].start,
        decreases j,
    {
        j = j - 1;
    }
    proof {
        lemma_insert_at_split(out@, x, j as int);
    }
    out.insert(j, x);
}

/// The available windows as appointments, numbered in response order, then
/// sorted by start; windows that start together keep their relative order.
pub fn to_appointments(availability: &Vec<Availability>) -> (r: Vec<Appointment>)
    ensures
        r@ == arranged(availability@),
{
    let mut picked: Vec<Appointment> = Vec::new();
    let mut i: usize = 0;
    while i < availability.len()
        invariant
            i <= availability@.len(),
            picked@ == numbered(availability@.subrange(0, i as int)),
            picked@.len() <= i,
        decreases availability@.len() - i,
    {
        let a = &availability[i];
        assert(availability@.subrange(0, i as int + 1).drop_last() =~= availability@.subrange(0, i as int));
        if a.available {
            let id: usize = picked.len() + 1;
            picked.push(Appointment::new(id, a));
        }
        i = i + 1;
    }
    assert(availability@.subrange(0, i as int) =~= availability@);
    let mut out: Vec<Appointment> = Vec::new();
    let mut k: usize = 0;
    while k < picked.len()
        invariant
            k <= picked@.len(),
            out@ == sort_by_start(picked@.subrange(0, k as int)),
        decreases picked@.len() - k,
    {
        assert(picked@.subrange(0, k as int + 1).drop_last() =~= picked@.subrange(0, k as int));
        insert_sorted(&mut out, picked[k]);
        k = k + 1;
    }
    assert(picked@.subrange(0, k as int) =~= picked@);
    out
}

} // verus!
