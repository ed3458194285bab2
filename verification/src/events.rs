use vstd::prelude::*;

verus! {

/// Which events a range `low..high` around "now" asks for.
///
/// Index 0 is the next upcoming event, index -1 the most recently finished
/// one. `previous_limit` is how many finished events to load (newest first),
/// `upcoming_limit` how many upcoming events to load (soonest first); `None`
/// means that query is not made at all.
#[derive(Clone, Copy, Debug, PartialEq, Eq)]
pub struct EventRangeQuery {
    pub previous_limit: Option<i64>,
    pub upcoming_limit: Option<i64>,
}

/// `s` without its first `n` elements, or nothing if it has no more than `n`.
pub open spec fn drop_front<T>(s: Seq<T>, n: int) -> Seq<T> {
    if n >= s.len() {
        Seq::empty()
    } else {
        s.skip(n)
    }
}

pub open spec fn spec_event_range_query(low: i64, high: i64) -> EventRangeQuery {
    EventRangeQuery {
        previous_limit: if low < 0 { Some((-low) as i64) } else { None },
        upcoming_limit: if high > 0 { Some(high) } else { None },
    }
}

/// The events of the range `low..high`, latest first, built from the loaded
/// finished events `previous` (newest first) and upcoming events `upcoming`
/// (soonest first).
pub open spec fn spec_event_range<T>(previous: Seq<T>, upcoming: Seq<T>, low: i64, high: i64) -> Seq<T> {
    let previous = if high < 0 { drop_front(previous, -high) } else { previous };
    let upcoming = if low > 0 { drop_front(upcoming, low as int) } else { upcoming };
    upcoming.reverse() + previous
}

/// The queries to make for the range `low..high`.
pub fn event_range_query(low: i64, high: i64) -> (res: EventRangeQuery)
    requires
        low < high,
        low > i64::MIN,
    ensures
        res == spec_event_range_query(low, high),
{
    let previous_limit = if low < 0 { Some(-low) } else { None };
    let upcoming_limit = if high > 0 { Some(high) } else { None };
    EventRangeQuery { previous_limit, upcoming_limit }
}

/// Removes the first `n` elements of `v`, or all of them if it has no more.
fn drop_first_n<T>(v: Vec<T>, n: u64) -> (res: Vec<T>)
    ensures
        res@ == drop_front(v@, n as int),
{
    let mut v = v;
    let ghost whole = v@;
    if n >= v.len() as u64 {
        Vec::new()
    } else {
        let rest = v.split_off(n as usize);
        assert(rest@ =~= whole.skip(n as int));
        rest
    }
}

/// Reverses the order of `v`.
fn reversed<T>(v: Vec<T>) -> (res: Vec<T>)
    ensures
        res@ == v@.reverse(),
{
    let mut v = v;
    let ghost whole = v@;
    let mut res: Vec<T> = Vec::new();
    while v.len() > 0
        invariant
            v@ == whole.take(v@.len() as int),
            v@.len() <= whole.len(),
            res@ =~= whole.skip(v@.len() as int).reverse(),
        decreases v@.len(),
    {
        let ghost before = v@;
        let x = v.pop().unwrap();
        res.push(x);
        proof {
            let k = before.len() - 1;
            assert(v@ =~= whole.take(k));
            assert(res@ =~= whole.skip(k).reverse());
        }
    }
    assert(whole.skip(0) =~= whole);
    res
}

/// Assembles the events of the range `low..high`: the loaded upcoming events
/// without the first `low` of them (when `low > 0`) in reverse order, then the
/// loaded finished events without the first `-high` of them (when `high < 0`).
pub fn assemble_event_range<T>(previous: Vec<T>, upcoming: Vec<T>, low: i64, high: i64) -> (res: Vec<T>)
    requires
        low < high,
    ensures
        res@ == spec_event_range(previous@, upcoming@, low, high),
{
    let mut previous = if high < 0 {
        drop_first_n(previous, (-high) as u64)
    } else {
        previous
    };
    let upcoming = if low > 0 {
        drop_first_n(upcoming, low as u64)
    } else {
        upcoming
    };
    let mut res = reversed(upcoming);
    res.append(&mut previous);
    res
}

/// A range `low..high` never holds more than `high - low` events, provided
/// the loaded lists respect the limits of `event_range_query` (and a list
/// whose query is not made is empty).
pub proof fn lemma_event_range_len<T>(previous: Seq<T>, upcoming: Seq<T>, low: i64, high: i64)
    requires
        low < high,
        low > i64::MIN,
        match spec_event_range_query(low, high).previous_limit {
            Some(limit) => previous.len() <= limit,
            None => previous.len() == 0,
        },
        match spec_event_range_query(low, high).upcoming_limit {
            Some(limit) => upcoming.len() <= limit,
            None => upcoming.len() == 0,
        },
    ensures
        spec_event_range(previous, upcoming, low, high).len() <= high - low,
{
    let p = if high < 0 { drop_front(previous, -high) } else { previous };
    let u = if low > 0 { drop_front(upcoming, low as int) } else { upcoming };
    assert(u.reverse().len() == u.len());
}

/// Every event of the range is one of the loaded events.
pub proof fn lemma_event_range_from_loaded<T>(previous: Seq<T>, upcoming: Seq<T>, low: i64, high: i64, i: int)
    requires
        0 <= i < spec_event_range(previous, upcoming, low, high).len(),
    ensures
        previous.contains(spec_event_range(previous, upcoming, low, high)[i])
            || upcoming.contains(spec_event_range(previous, upcoming, low, high)[i]),
{
    let p = if high < 0 { drop_front(previous, -high) } else { previous };
    let u = if low > 0 { drop_front(upcoming, low as int) } else { upcoming };
    let r = spec_event_range(previous, upcoming, low, high);
    assert(r == u.reverse() + p);
    assert(u.reverse().len() == u.len());
    if i < u.len() {
        let j = u.len() - 1 - i;
        assert(r[i] == u[j]);
        if low > 0 && (low as int) < upcoming.len() {
            assert(u[j] == upcoming[j + low]);
        }
        if low > 0 {
            assert(upcoming.contains(r[i]));
        } else {
            assert(upcoming[j] == r[i]);
        }
    } else {
        let j = i - u.len();
        assert(r[i] == p[j]);
        if high < 0 {
            assert(previous[j - high] == r[i]);
        } else {
            assert(previous[j] == r[i]);
        }
    }
}

/// What a query with `limit` loads from `events` (finished events newest
/// first, or upcoming events soonest first): the first `limit` of them, or
/// nothing when the query is not made.
pub open spec fn loaded<T>(events: Seq<T>, limit: Option<i64>) -> Seq<T> {
    match limit {
        Some(n) => if n >= events.len() {
            events
        } else {
            events.take(n as int)
        },
        None => Seq::empty(),
    }
}

/// The range `low..high` as loaded from the finished events `finished`
/// (newest first) and the upcoming events `upcoming` (soonest first).
pub open spec fn range_of<T>(finished: Seq<T>, upcoming: Seq<T>, low: i64, high: i64) -> Seq<T> {
    let query = spec_event_range_query(low, high);
    spec_event_range(loaded(finished, query.previous_limit), loaded(upcoming, query.upcoming_limit), low, high)
}

pub open spec fn clamp(x: int, len: int) -> int {
    if x < 0 {
        0
    } else if x > len {
        len
    } else {
        x
    }
}

/// The events of `s` at positions `a..b`, cut to the positions `s` has.
pub open spec fn segment<T>(s: Seq<T>, a: int, b: int) -> Seq<T> {
    if clamp(a, s.len() as int) <= clamp(b, s.len() as int) {
        s.subrange(clamp(a, s.len() as int), clamp(b, s.len() as int))
    } else {
        Seq::empty()
    }
}

proof fn lemma_range_of_segments<T>(finished: Seq<T>, upcoming: Seq<T>, low: i64, high: i64)
    requires
        i64::MIN < low < high,
    ensures
        range_of(finished, upcoming, low, high) == segment(upcoming, low as int, high as int).reverse()
            + segment(finished, -high, -low),
{
    let query = spec_event_range_query(low, high);
    let p = loaded(finished, query.previous_limit);
    let u = loaded(upcoming, query.upcoming_limit);
    let p2 = if high < 0 { drop_front(p, -high) } else { p };
    let u2 = if low > 0 { drop_front(u, low as int) } else { u };
    assert(p2 =~= segment(finished, -high, -low));
    assert(u2 =~= segment(upcoming, low as int, high as int));
}

proof fn lemma_reverse_concat<T>(a: Seq<T>, b: Seq<T>)
    ensures
        (a + b).reverse() == b.reverse() + a.reverse(),
{
    assert((a + b).reverse() =~= b.reverse() + a.reverse());
}

proof fn lemma_segment_split<T>(s: Seq<T>, a: int, m: int, b: int)
    requires
        a <= m <= b,
    ensures
        segment(s, a, b) == segment(s, a, m) + segment(s, m, b),
{
    assert(segment(s, a, b) =~= segment(s, a, m) + segment(s, m, b));
}

/// Adjacent ranges join: the range `low..high` is the range `mid..high`
/// followed by the range `low..mid`, when all three are loaded from the same
/// events.
pub proof fn lemma_adjacent_ranges_join<T>(finished: Seq<T>, upcoming: Seq<T>, low: i64, mid: i64, high: i64)
    requires
        i64::MIN < low < mid < high,
    ensures
        range_of(finished, upcoming, low, high) == range_of(finished, upcoming, mid, high) + range_of(
            finished,
            upcoming,
            low,
            mid,
        ),
{
    lemma_range_of_segments(finished, upcoming, low, high);
    lemma_range_of_segments(finished, upcoming, mid, high);
    lemma_range_of_segments(finished, upcoming, low, mid);
    let ua = segment(upcoming, mid as int, high as int);
    let ub = segment(upcoming, low as int, mid as int);
    let fa = segment(finished, -high, -mid);
    let fb = segment(finished, -mid, -low);
    lemma_segment_split(upcoming, low as int, mid as int, high as int);
    lemma_segment_split(finished, -high, -mid, -low);
    lemma_reverse_concat(ub, ua);
    if mid >= 0 {
        assert(fa =~= Seq::<T>::empty());
    } else {
        assert(ub =~= Seq::<T>::empty());
        assert(ub.reverse() =~= Seq::<T>::empty());
    }
    assert(range_of(finished, upcoming, low, high) =~= (ua.reverse() + fa) + (ub.reverse() + fb));
}

/// Position `k >= 0` of the range is the `k`-th upcoming event (counting
/// from 0), position `-k` the `k`-th most recently finished one; a range of
/// one position holds that event, or nothing when there is none.
pub proof fn lemma_single_position<T>(finished: Seq<T>, upcoming: Seq<T>, k: i64)
    requires
        i64::MIN < k < i64::MAX,
    ensures
        k >= 0 && k < upcoming.len() ==> range_of(finished, upcoming, k, (k + 1) as i64) == seq![upcoming[k as int]],
        k >= 0 && k >= upcoming.len() ==> range_of(finished, upcoming, k, (k + 1) as i64) == Seq::<T>::empty(),
        k < 0 && -k <= finished.len() ==> range_of(finished, upcoming, k, (k + 1) as i64) == seq![finished[-k - 1]],
        k < 0 && -k > finished.len() ==> range_of(finished, upcoming, k, (k + 1) as i64) == Seq::<T>::empty(),
{
    let high = (k + 1) as i64;
    lemma_range_of_segments(finished, upcoming, k, high);
    let u = segment(upcoming, k as int, high as int);
    let f = segment(finished, -high, -k);
    if k >= 0 {
        assert(f =~= Seq::<T>::empty());
        if k < upcoming.len() {
            assert(u =~= seq![upcoming[k as int]]);
            assert(u.reverse() =~= u);
        } else {
            assert(u =~= Seq::<T>::empty());
            assert(u.reverse() =~= u);
        }
    } else {
        assert(u =~= Seq::<T>::empty());
        assert(u.reverse() =~= u);
        if -k <= finished.len() {
            assert(f =~= seq![finished[-k - 1]]);
        } else {
            assert(f =~= Seq::<T>::empty());
        }
    }
    assert(range_of(finished, upcoming, k, high) =~= u.reverse() + f);
}

} // verus!
