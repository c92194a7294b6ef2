//! Ordering of timed records by time: a stable insertion sort, with the laws
//! that its result is ordered, that records of equal time keep their order,
//! and that ordered input is left as it is.
use vstd::prelude::*;

verus! {

/// A record that happens at a time.
pub trait Timed {
    /// The time, in units of 10^-9 ms.
    spec fn time_of(&self) -> int;

    fn time(&self) -> (r: i128)
        ensures
            r == self.time_of(),
    ;
}

/// Times never decrease along `s`.
pub open spec fn sorted_by_time<T: Timed>(s: Seq<T>) -> bool {
    forall|i: int, j: int| 0 <= i < j < s.len() ==> s[i].time_of() <= s[j].time_of()
}

/// The records of `s` that happen at time `t`, in order.
pub open spec fn at_time<T: Timed>(s: Seq<T>, t: int) -> Seq<T>
    decreases s.len(),
{
    if s.len() == 0 {
        Seq::empty()
    } else if s[0].time_of() == t {
        seq![s[0]] + at_time(s.drop_first(), t)
    } else {
        at_time(s.drop_first(), t)
    }
}

/// How many records at the front of `s` happen before `t`.
pub open spec fn lead_earlier<T: Timed>(s: Seq<T>, t: int) -> int
    decreases s.len(),
{
    if s.len() == 0 || s[0].time_of() >= t {
        0
    } else {
        1 + lead_earlier(s.drop_first(), t)
    }
}

/// `s` ordered by time, records of equal time in the order they had.
pub open spec fn stable_sort<T: Timed>(s: Seq<T>) -> Seq<T>
    decreases s.len(),
{
    if s.len() == 0 {
        s
    } else {
        let r = stable_sort(s.drop_first());
        r.insert(lead_earlier(r, s[0].time_of()), s[0])
    }
}

pub proof fn lemma_lead_earlier<T: Timed>(s: Seq<T>, t: int)
    ensures
        0 <= lead_earlier(s, t) <= s.len(),
        forall|i: int| 0 <= i < lead_earlier(s, t) ==> s[i].time_of() < t,
        lead_earlier(s, t) < s.len() ==> s[lead_earlier(s, t)].time_of() >= t,
    decreases s.len(),
{
    if s.len() > 0 && s[0].time_of() < t {
        lemma_lead_earlier(s.drop_first(), t);
        assert forall|i: int| 0 <= i < lead_earlier(s, t) implies s[i].time_of() < t by {
            if i > 0 {
                assert(s[i] == s.drop_first()[i - 1]);
            }
        }
    }
}

proof fn lemma_lead_earlier_is<T: Timed>(s: Seq<T>, t: int, j: int)
    requires
        0 <= j <= s.len(),
        forall|i: int| 0 <= i < j ==> s[i].time_of() < t,
        j < s.len() ==> s[j].time_of() >= t,
    ensures
        lead_earlier(s, t) == j,
    decreases s.len(),
{
    if j > 0 {
        lemma_lead_earlier_is(s.drop_first(), t, j - 1);
    }
}

pub proof fn lemma_stable_sort_len<T: Timed>(s: Seq<T>)
    ensures
        stable_sort(s).len() == s.len(),
    decreases s.len(),
{
    if s.len() > 0 {
        lemma_stable_sort_len(s.drop_first());
        lemma_lead_earlier(stable_sort(s.drop_first()), s[0].time_of());
    }
}

proof fn lemma_at_time_concat<T: Timed>(a: Seq<T>, b: Seq<T>, t: int)
    ensures
        at_time(a + b, t) == at_time(a, t) + at_time(b, t),
    decreases a.len(),
{
    if a.len() == 0 {
        assert(a + b =~= b);
        assert(at_time(a, t) + at_time(b, t) =~= at_time(b, t));
    } else {
        lemma_at_time_concat(a.drop_first(), b, t);
        assert((a + b).drop_first() =~= a.drop_first() + b);
        if a[0].time_of() == t {
            assert(seq![a[0]] + (at_time(a.drop_first(), t) + at_time(b, t)) =~= (seq![a[0]]
                + at_time(a.drop_first(), t)) + at_time(b, t));
        }
    }
}

proof fn lemma_at_time_none<T: Timed>(a: Seq<T>, t: int)
    requires
        forall|i: int| 0 <= i < a.len() ==> a[i].time_of() < t,
    ensures
        at_time(a, t) == Seq::<T>::empty(),
    decreases a.len(),
{
    if a.len() > 0 {
        lemma_at_time_none(a.drop_first(), t);
    }
}

/// The result of the sort is ordered by time.
pub proof fn lemma_stable_sort_sorted<T: Timed>(s: Seq<T>)
    ensures
        sorted_by_time(stable_sort(s)),
    decreases s.len(),
{
    if s.len() > 0 {
        let r = stable_sort(s.drop_first());
        let x = s[0];
        lemma_stable_sort_sorted(s.drop_first());
        lemma_lead_earlier(r, x.time_of());
        let j = lead_earlier(r, x.time_of());
        let q = r.insert(j, x);
        assert forall|a: int, b: int| 0 <= a < b < q.len() implies q[a].time_of()
            <= q[b].time_of() by {
            if b < j {
            } else if b == j {
            } else if a < j {
                assert(r[a].time_of() < x.time_of());
                assert(r[j].time_of() >= x.time_of());
                assert(r[j].time_of() <= r[b - 1].time_of());
            } else if a == j {
                assert(r[j].time_of() <= r[b - 1].time_of());
            } else {
            }
        }
    }
}

/// The records of any one time keep their order through the sort.
pub proof fn lemma_stable_sort_stable<T: Timed>(s: Seq<T>, t: int)
    ensures
        at_time(stable_sort(s), t) == at_time(s, t),
    decreases s.len(),
{
    if s.len() > 0 {
        let r = stable_sort(s.drop_first());
        let x = s[0];
        lemma_stable_sort_stable(s.drop_first(), t);
        lemma_lead_earlier(r, x.time_of());
        let j = lead_earlier(r, x.time_of());
        let pre = r.subrange(0, j);
        let post = r.subrange(j, r.len() as int);
        assert(r.insert(j, x) =~= pre + (seq![x] + post));
        assert(r =~= pre + post);
        lemma_at_time_concat(pre, seq![x] + post, t);
        lemma_at_time_concat(seq![x], post, t);
        lemma_at_time_concat(pre, post, t);
        assert(seq![x].drop_first() =~= Seq::<T>::empty());
        assert(seq![x][0] == x);
        assert(at_time(Seq::<T>::empty(), t) == Seq::<T>::empty());
        if x.time_of() == t {
            assert(at_time(seq![x], t) =~= seq![x]);
            lemma_at_time_none(pre, t);
            assert(at_time(pre, t) + at_time(post, t) =~= at_time(post, t));
            assert(at_time(pre, t) + (at_time(seq![x], t) + at_time(post, t)) =~= seq![x]
                + at_time(post, t));
        } else {
            assert(at_time(seq![x], t) =~= Seq::<T>::empty());
            assert(at_time(seq![x], t) + at_time(post, t) =~= at_time(post, t));
        }
    }
}

/// Input that is already ordered by time comes out unchanged.
pub proof fn lemma_stable_sort_keeps_sorted<T: Timed>(s: Seq<T>)
    requires
        sorted_by_time(s),
    ensures
        stable_sort(s) == s,
    decreases s.len(),
{
    if s.len() > 0 {
        let tail = s.drop_first();
        assert(sorted_by_time(tail)) by {
            assert forall|a: int, b: int| 0 <= a < b < tail.len() implies tail[a].time_of()
                <= tail[b].time_of() by {
                assert(tail[a] == s[a + 1] && tail[b] == s[b + 1]);
            }
        }
        lemma_stable_sort_keeps_sorted(tail);
        if tail.len() > 0 {
            assert(tail[0] == s[1]);
        }
        assert(lead_earlier(tail, s[0].time_of()) == 0);
        assert(tail.insert(0, s[0]) =~= s);
    }
}

/// Whether the times in `v` never decrease.
pub fn is_sorted_by_time<T: Timed>(v: &Vec<T>) -> (r: bool)
    ensures
        r == sorted_by_time(v@),
{
    let mut i: usize = 1;
    if v.len() == 0 {
        return true;
    }
    while i < v.len()
        invariant
            1 <= i <= v@.len(),
            sorted_by_time(v@.subrange(0, i as int)),
        decreases v.len() - i,
    {
        if v[i].time() < v[i - 1].time() {
            assert(!sorted_by_time(v@)) by {
                assert(v@[i - 1].time_of() > v@[i as int].time_of());
            }
            return false;
        }
        assert(sorted_by_time(v@.subrange(0, i + 1))) by {
            let w = v@.subrange(0, i + 1);
            assert forall|a: int, b: int| 0 <= a < b < w.len() implies w[a].time_of() <= w[b].time_of() by {
                assert(w[a] == v@[a]);
                assert(w[b] == v@[b]);
                if b < i {
                    assert(v@.subrange(0, i as int)[a] == v@[a]);
                    assert(v@.subrange(0, i as int)[b] == v@[b]);
                } else if a < i - 1 {
                    assert(v@.subrange(0, i as int)[a] == v@[a]);
                    assert(v@.subrange(0, i as int)[i - 1] == v@[i - 1]);
                }
            }
        }
        i = i + 1;
    }
    assert(v@.subrange(0, v@.len() as int) =~= v@);
    true
}

/// Orders `v` by time, stably: records of equal time keep their relative order,
/// and ordered input is left as it is.
pub fn sort_by_time<T: Timed>(v: &mut Vec<T>)
    ensures
        final(v)@ == stable_sort(old(v)@),
        final(v)@.len() == old(v)@.len(),
        sorted_by_time(final(v)@),
        forall|t: int| #[trigger] at_time(final(v)@, t) == at_time(old(v)@, t),
        sorted_by_time(old(v)@) ==> final(v)@ == old(v)@,
{
    if is_sorted_by_time(v) {
        proof {
            lemma_stable_sort_keeps_sorted(v@);
        }
        return;
    }
    let ghost orig = v@;
    let ghost n = v@.len();
    let mut out: Vec<T> = Vec::new();
    assert(orig.subrange(n as int, n as int) =~= Seq::<T>::empty());
    assert(orig.subrange(0, n as int) =~= orig);
    while v.len() > 0
        invariant
            v@.len() <= n,
            n == orig.len(),
            v@ == orig.subrange(0, v@.len() as int),
            out@ == stable_sort(orig.subrange(v@.len() as int, n as int)),
        decreases v.len(),
    {
        let k = v.len();
        let x = match v.pop() {
            Some(x) => x,
            None => {
                return;
            },
        };
        let ghost rest = orig.subrange(k - 1, n as int);
        assert(rest.drop_first() =~= orig.subrange(k as int, n as int));
        assert(rest[0] == x);
        assert(v@ =~= orig.subrange(0, k - 1));
        let t = x.time();
        let mut j: usize = 0;
        proof {
            lemma_stable_sort_len(orig.subrange(k as int, n as int));
        }
        while j < out.len() && out[j].time() < t
            invariant
                j <= out@.len(),
                forall|i: int| 0 <= i < j ==> out@[i].time_of() < t,
            decreases out.len() - j,
        {
            j = j + 1;
        }
        proof {
            lemma_lead_earlier_is(out@, t as int, j as int);
        }
        out.insert(j, x);
    }
    proof {
        lemma_stable_sort_len(orig);
        lemma_stable_sort_sorted(orig);
        assert forall|t: int| #[trigger] at_time(out@, t) == at_time(orig, t) by {
            lemma_stable_sort_stable(orig, t);
        }
        if sorted_by_time(orig) {
            lemma_stable_sort_keeps_sorted(orig);
        }
    }
    *v = out;
}

} // verus!
