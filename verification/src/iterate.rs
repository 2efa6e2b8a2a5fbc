//! Ordered range iteration with a caller-supplied visitor.
//!
//! The caller names an inclusive byte-range `[begin, end]` of one subspace;
//! the engine positions a cursor at `begin` going forward, or at `end` going
//! reverse, and yields rows in cursor order. For each row whose key lies in
//! the range the visitor is invoked; a key outside the range, a visitor
//! returning `false`, a visitor failure, or `first` being set, each end the
//! iteration.

use vstd::prelude::*;

use crate::bytes::{bytes_lt, lex_le, lex_lt};
use crate::error::Error;

verus! {

/// A visited row at the specification level: key bytes and value bytes.
pub type Row = (Seq<u8>, Seq<u8>);

/// The decision policy of a visitor: given the rows already visited and the
/// current key and value, whether the visitor continues (`Some(true)`),
/// stops cleanly (`Some(false)`), or fails (`None`).
pub type Policy = spec_fn(Seq<Row>, Seq<u8>, Seq<u8>) -> Option<bool>;

/// The views of the rows an engine scan yielded.
pub open spec fn row_views(entries: Seq<(Vec<u8>, Vec<u8>)>) -> Seq<Row> {
    entries.map_values(|p: (Vec<u8>, Vec<u8>)| (p.0@, p.1@))
}

/// A caller-supplied callback invoked once per visited row.
///
/// `visited` abstracts the visitor's state as the rows it has seen, in
/// order; `policy` is its decision rule, fixed for the visitor's lifetime
/// and a function of the visited history and the current row alone.
pub trait Visitor: Sized {
    /// The rows this visitor has been invoked on, oldest first.
    spec fn visited(&self) -> Seq<Row>;

    /// The visitor's decision rule.
    spec fn policy(&self) -> Policy;

    /// Visits one row: returns whether iteration should continue, or an
    /// error, which halts iteration and is surfaced unchanged.
    fn visit(&mut self, key: &Vec<u8>, value: &Vec<u8>) -> (r: Result<bool, Error>)
        ensures
            final(self).visited() == old(self).visited().push((key@, value@)),
            final(self).policy() == old(self).policy(),
            (match r {
                Ok(c) => old(self).policy()(old(self).visited(), key@, value@) == Some(c),
                Err(_) => old(self).policy()(old(self).visited(), key@, value@) is None,
            }),
    ;
}

/// An iteration request: an inclusive byte-range of one subspace, a
/// direction, and whether to stop after the first visited row.
///
/// `begin` and `end` are fully-encoded keys of the same subspace. With
/// `ascending` the engine scan starts at `begin` and runs forward; without
/// it, at `end` and runs backward. The bound test is the same either way.
pub struct IterateParams {
    /// Lower bound of the range, inclusive.
    pub begin: Vec<u8>,
    /// Upper bound of the range, inclusive.
    pub end: Vec<u8>,
    /// Direction of the scan, and of the visit order.
    pub ascending: bool,
    /// Stop after the first visited row.
    pub first: bool,
}

/// The rows the visitor is invoked on, in order: the longest prefix of the
/// scanned rows that stays in `[begin, end]`, cut where the policy stops,
/// fails, or `first` ends the iteration after one row.
pub open spec fn planned(
    entries: Seq<Row>,
    begin: Seq<u8>,
    end: Seq<u8>,
    first: bool,
    history: Seq<Row>,
    policy: Policy,
) -> Seq<Row>
    decreases entries.len(),
{
    if entries.len() == 0 {
        Seq::empty()
    } else {
        let e = entries[0];
        if lex_lt(e.0, begin) || lex_lt(end, e.0) {
            Seq::empty()
        } else if policy(history, e.0, e.1) == Some(true) && !first {
            seq![e] + planned(entries.drop_first(), begin, end, first, history.push(e), policy)
        } else {
            seq![e]
        }
    }
}

/// Whether the iteration ends cleanly: true unless some visited row makes
/// the policy fail.
pub open spec fn planned_ok(
    entries: Seq<Row>,
    begin: Seq<u8>,
    end: Seq<u8>,
    first: bool,
    history: Seq<Row>,
    policy: Policy,
) -> bool
    decreases entries.len(),
{
    if entries.len() == 0 {
        true
    } else {
        let e = entries[0];
        if lex_lt(e.0, begin) || lex_lt(end, e.0) {
            true
        } else {
            match policy(history, e.0, e.1) {
                Option::None => false,
                Option::Some(false) => true,
                Option::Some(true) => first || planned_ok(
                    entries.drop_first(),
                    begin,
                    end,
                    first,
                    history.push(e),
                    policy,
                ),
            }
        }
    }
}

/// Runs one iteration: `entries` are the rows the engine scan yielded, in
/// cursor order (forward from `begin` when ascending, backward from `end`
/// otherwise).
///
/// Every row up to the first stop is handed to the visitor; a key outside
/// `[begin, end]` stops before the visit; a visitor failure is surfaced
/// unchanged.
#[verifier::loop_isolation(false)]
pub fn iterate<V: Visitor>(entries: &Vec<(Vec<u8>, Vec<u8>)>, params: &IterateParams, visitor: &mut V) -> (r:
    Result<(), Error>)
    ensures
        final(visitor).policy() == old(visitor).policy(),
        final(visitor).visited() =~= old(visitor).visited() + planned(
            row_views(entries@),
            params.begin@,
            params.end@,
            params.first,
            old(visitor).visited(),
            old(visitor).policy(),
        ),
        r is Ok <==> planned_ok(
            row_views(entries@),
            params.begin@,
            params.end@,
            params.first,
            old(visitor).visited(),
            old(visitor).policy(),
        ),
{
    let ghost full = row_views(entries@);
    let ghost h0 = old(visitor).visited();
    let ghost pol = old(visitor).policy();
    let ghost b = params.begin@;
    let ghost e = params.end@;
    let ghost mut done = Seq::<Row>::empty();
    let mut i: usize = 0;
    proof {
        assert(full.skip(0) =~= full);
        assert(h0 + done =~= h0);
    }
    loop
        invariant
            i <= entries.len(),
            full == row_views(entries@),
            b == params.begin@,
            e == params.end@,
            visitor.policy() == pol,
            visitor.visited() =~= h0 + done,
            planned(full, b, e, params.first, h0, pol) =~= done + planned(
                full.skip(i as int),
                b,
                e,
                params.first,
                h0 + done,
                pol,
            ),
            planned_ok(full, b, e, params.first, h0, pol) == planned_ok(
                full.skip(i as int),
                b,
                e,
                params.first,
                h0 + done,
                pol,
            ),
        decreases entries.len() - i,
    {
        if i >= entries.len() {
            proof {
                assert(full.skip(i as int) =~= Seq::<Row>::empty());
                assert(done + planned(full.skip(i as int), b, e, params.first, h0 + done, pol)
                    =~= done);
            }
            return Ok(());
        }
        let row: &(Vec<u8>, Vec<u8>) = &entries[i];
        proof {
            assert(full[i as int] == (row.0@, row.1@));
            assert(full.skip(i as int)[0] == full[i as int]);
            assert(full.skip(i as int).drop_first() =~= full.skip(i as int + 1));
        }
        if bytes_lt(&row.0, &params.begin) || bytes_lt(&params.end, &row.0) {
            proof {
                assert(planned(full.skip(i as int), b, e, params.first, h0 + done, pol)
                    =~= Seq::<Row>::empty());
                assert(done + planned(full.skip(i as int), b, e, params.first, h0 + done, pol)
                    =~= done);
            }
            return Ok(());
        }
        let ghost prev = done;
        let ghost x = (row.0@, row.1@);
        let res = visitor.visit(&row.0, &row.1);
        proof {
            done = prev.push(x);
            assert(full.skip(i as int).len() > 0);
            assert(visitor.visited() =~= h0 + done);
        }
        match res {
            Err(err) => {
                proof {
                    assert(planned(full.skip(i as int), b, e, params.first, h0 + prev, pol)
                        =~= seq![x]);
                    assert(prev + seq![x] =~= done);
                }
                return Err(err);
            },
            Ok(cont) => {
                if !cont || params.first {
                    proof {
                        assert(planned(full.skip(i as int), b, e, params.first, h0 + prev, pol)
                            =~= seq![x]);
                        assert(prev + seq![x] =~= done);
                    }
                    return Ok(());
                }
            },
        }
        proof {
            assert(planned(full.skip(i as int), b, e, params.first, h0 + prev, pol) =~= seq![x]
                + planned(full.skip(i as int + 1), b, e, params.first, (h0 + prev).push(x), pol));
            assert((h0 + prev).push(x) =~= h0 + done);
            assert(prev + (seq![x] + planned(full.skip(i as int + 1), b, e, params.first,
                h0 + done, pol)) =~= done + planned(full.skip(i as int + 1), b, e, params.first,
                h0 + done, pol));
            assert(planned_ok(full.skip(i as int), b, e, params.first, h0 + prev, pol)
                == planned_ok(full.skip(i as int + 1), b, e, params.first, h0 + done, pol));
        }
        i = i + 1;
    }
}

/// A visitor that records every row it is shown and always continues.
pub struct CollectVisitor {
    /// The rows seen, in visit order.
    pub rows: Vec<(Vec<u8>, Vec<u8>)>,
}

impl CollectVisitor {
    /// A collector that has seen nothing.
    pub fn new() -> (r: CollectVisitor)
        ensures
            r.visited() =~= Seq::<Row>::empty(),
            forall|h: Seq<Row>, k: Seq<u8>, v: Seq<u8>| #[trigger] r.policy()(h, k, v) == Some(
                true,
            ),
    {
        CollectVisitor { rows: Vec::new() }
    }
}

impl Visitor for CollectVisitor {
    open spec fn visited(&self) -> Seq<Row> {
        row_views(self.rows@)
    }

    open spec fn policy(&self) -> Policy {
        |h: Seq<Row>, k: Seq<u8>, v: Seq<u8>| Some(true)
    }

    fn visit(&mut self, key: &Vec<u8>, value: &Vec<u8>) -> (r: Result<bool, Error>) {
        let k = crate::bytes::copy_bytes(key);
        let v = crate::bytes::copy_bytes(value);
        self.rows.push((k, v));
        proof {
            assert(self.visited() =~= old(self).visited().push((key@, value@)));
        }
        Ok(true)
    }
}

/// A visitor that records rows and stops cleanly after visiting a chosen
/// key.
pub struct StopAtKeyVisitor {
    /// The key whose visit is the last.
    pub stop_key: Vec<u8>,
    /// The rows seen, in visit order.
    pub rows: Vec<(Vec<u8>, Vec<u8>)>,
}

impl StopAtKeyVisitor {
    /// A visitor that will stop once it has seen `stop_key`.
    pub fn new(stop_key: Vec<u8>) -> (r: StopAtKeyVisitor)
        ensures
            r.visited() =~= Seq::<Row>::empty(),
            r.stop_key@ == stop_key@,
            forall|h: Seq<Row>, k: Seq<u8>, v: Seq<u8>| #[trigger] r.policy()(h, k, v) == Some(
                k != stop_key@,
            ),
    {
        StopAtKeyVisitor { stop_key, rows: Vec::new() }
    }
}

impl Visitor for StopAtKeyVisitor {
    open spec fn visited(&self) -> Seq<Row> {
        row_views(self.rows@)
    }

    open spec fn policy(&self) -> Policy {
        let stop = self.stop_key@;
        |h: Seq<Row>, k: Seq<u8>, v: Seq<u8>| Some(k != stop)
    }

    fn visit(&mut self, key: &Vec<u8>, value: &Vec<u8>) -> (r: Result<bool, Error>) {
        let hit = crate::bytes::bytes_eq(key, &self.stop_key);
        let k = crate::bytes::copy_bytes(key);
        let v = crate::bytes::copy_bytes(value);
        self.rows.push((k, v));
        proof {
            assert(self.visited() =~= old(self).visited().push((key@, value@)));
            assert(final(self).policy() =~= old(self).policy());
        }
        Ok(!hit)
    }
}

/// With `first` set, the visitor is invoked at most once, whatever the scan
/// yields and whatever the visitor decides.
pub proof fn lemma_first_visits_at_most_one(
    entries: Seq<Row>,
    begin: Seq<u8>,
    end: Seq<u8>,
    history: Seq<Row>,
    policy: Policy,
)
    ensures
        planned(entries, begin, end, true, history, policy).len() <= 1,
{
}

/// A visitor that records rows and fails when shown a chosen key; its
/// failure halts the iteration and is surfaced unchanged.
pub struct FailAtKeyVisitor {
    /// The key whose visit fails.
    pub fail_key: Vec<u8>,
    /// The rows seen, in visit order.
    pub rows: Vec<(Vec<u8>, Vec<u8>)>,
}

impl FailAtKeyVisitor {
    /// A visitor that will fail once it is shown `fail_key`.
    pub fn new(fail_key: Vec<u8>) -> (r: FailAtKeyVisitor)
        ensures
            r.visited() =~= Seq::<Row>::empty(),
            r.fail_key@ == fail_key@,
            forall|h: Seq<Row>, k: Seq<u8>, v: Seq<u8>| #[trigger] r.policy()(h, k, v) == (
            if k == fail_key@ {
                Option::<bool>::None
            } else {
                Some(true)
            }),
    {
        FailAtKeyVisitor { fail_key, rows: Vec::new() }
    }
}

impl Visitor for FailAtKeyVisitor {
    open spec fn visited(&self) -> Seq<Row> {
        row_views(self.rows@)
    }

    open spec fn policy(&self) -> Policy {
        let fail = self.fail_key@;
        |h: Seq<Row>, k: Seq<u8>, v: Seq<u8>|
            if k == fail {
                Option::<bool>::None
            } else {
                Some(true)
            }
    }

    fn visit(&mut self, key: &Vec<u8>, value: &Vec<u8>) -> (r: Result<bool, Error>) {
        let hit = crate::bytes::bytes_eq(key, &self.fail_key);
        let k = crate::bytes::copy_bytes(key);
        let v = crate::bytes::copy_bytes(value);
        self.rows.push((k, v));
        proof {
            assert(self.visited() =~= old(self).visited().push((key@, value@)));
            assert(final(self).policy() =~= old(self).policy());
        }
        if hit {
            Err(Error::Visitor)
        } else {
            Ok(true)
        }
    }
}

/// Whatever the visitor decides, the visited rows are an initial segment
/// of the scanned rows — each row at most once, in scan order, with no row
/// skipped before a stop — and every visited key lies in `[begin, end]`.
pub proof fn lemma_planned_prefix_in_range(
    entries: Seq<Row>,
    begin: Seq<u8>,
    end: Seq<u8>,
    first: bool,
    history: Seq<Row>,
    policy: Policy,
)
    ensures
        ({
            let d = planned(entries, begin, end, first, history, policy);
            &&& d.len() <= entries.len()
            &&& forall|j: int| 0 <= j < d.len() ==> #[trigger] d[j] == entries[j]
            &&& forall|j: int|
                0 <= j < d.len() ==> lex_le(begin, #[trigger] d[j].0) && lex_le(d[j].0, end)
        }),
    decreases entries.len(),
{
    if entries.len() > 0 {
        let e0 = entries[0];
        if !lex_lt(e0.0, begin) && !lex_lt(end, e0.0) && policy(history, e0.0, e0.1)
            == Some(true) && !first {
            let rest = entries.drop_first();
            lemma_planned_prefix_in_range(rest, begin, end, first, history.push(e0), policy);
            let d = planned(entries, begin, end, first, history, policy);
            let dr = planned(rest, begin, end, first, history.push(e0), policy);
            assert(d =~= seq![e0] + dr);
            assert forall|j: int| 0 <= j < d.len() implies #[trigger] d[j] == entries[j] by {
                if j > 0 {
                    assert(d[j] == dr[j - 1]);
                    assert(dr[j - 1] == rest[j - 1]);
                    assert(rest[j - 1] == entries[j]);
                }
            }
        }
    }
}

/// With equal bounds, at most one row is visited: over rows with distinct
/// keys, only one key can lie in `[bound, bound]`.
pub proof fn lemma_equal_bounds_visit_at_most_one(
    entries: Seq<Row>,
    bound: Seq<u8>,
    first: bool,
    history: Seq<Row>,
    policy: Policy,
)
    requires
        forall|i: int, j: int| 0 <= i < j < entries.len() ==> #[trigger] entries[i].0
            != #[trigger] entries[j].0,
    ensures
        planned(entries, bound, bound, first, history, policy).len() <= 1,
{
    lemma_planned_prefix_in_range(entries, bound, bound, first, history, policy);
    let d = planned(entries, bound, bound, first, history, policy);
    if d.len() >= 2 {
        assert(d[0] == entries[0] && d[1] == entries[1]);
        crate::bytes::lemma_lex_connex(entries[0].0, bound);
        crate::bytes::lemma_lex_connex(entries[1].0, bound);
        assert(entries[0].0 == entries[1].0);
        assert(false);
    }
}

/// An ascending scan over strictly ascending rows that start at or after
/// `begin` visits, under an always-continuing visitor, exactly the rows
/// whose keys lie in `[begin, end]`: each exactly once, in ascending order,
/// and none beyond the range.
pub proof fn lemma_ascending_visits_range(
    entries: Seq<Row>,
    begin: Seq<u8>,
    end: Seq<u8>,
    history: Seq<Row>,
    policy: Policy,
)
    requires
        forall|i: int, j: int| 0 <= i < j < entries.len() ==> lex_lt(
            #[trigger] entries[i].0,
            #[trigger] entries[j].0,
        ),
        forall|i: int| 0 <= i < entries.len() ==> lex_le(begin, #[trigger] entries[i].0),
        forall|h: Seq<Row>, k: Seq<u8>, v: Seq<u8>| #[trigger] policy(h, k, v) == Some(true),
    ensures
        ({
            let d = planned(entries, begin, end, false, history, policy);
            &&& d.len() <= entries.len()
            &&& forall|j: int| 0 <= j < d.len() ==> #[trigger] d[j] == entries[j]
            &&& forall|j: int|
                0 <= j < d.len() ==> lex_le(begin, #[trigger] d[j].0) && lex_le(d[j].0, end)
            &&& forall|i: int|
                0 <= i < entries.len() && lex_le(#[trigger] entries[i].0, end) ==> i < d.len()
            &&& planned_ok(entries, begin, end, false, history, policy)
        }),
    decreases entries.len(),
{
    if entries.len() > 0 {
        let e0 = entries[0];
        assert(!lex_lt(e0.0, begin));
        if lex_lt(end, e0.0) {
            assert forall|i: int| 0 <= i < entries.len() implies !lex_le(
                #[trigger] entries[i].0,
                end,
            ) by {
                if i > 0 {
                    crate::bytes::lemma_lex_transitive(end, e0.0, entries[i].0);
                }
            }
        } else {
            let rest = entries.drop_first();
            assert forall|i: int, j: int| 0 <= i < j < rest.len() implies lex_lt(
                #[trigger] rest[i].0,
                #[trigger] rest[j].0,
            ) by {
                assert(rest[i] == entries[i + 1]);
                assert(rest[j] == entries[j + 1]);
            }
            assert forall|i: int| 0 <= i < rest.len() implies lex_le(
                begin,
                #[trigger] rest[i].0,
            ) by {
                assert(rest[i] == entries[i + 1]);
            }
            lemma_ascending_visits_range(rest, begin, end, history.push(e0), policy);
            let d = planned(entries, begin, end, false, history, policy);
            let dr = planned(rest, begin, end, false, history.push(e0), policy);
            assert(d =~= seq![e0] + dr);
            assert forall|j: int| 0 <= j < d.len() implies #[trigger] d[j] == entries[j] by {
                if j > 0 {
                    assert(d[j] == dr[j - 1]);
                    assert(dr[j - 1] == rest[j - 1]);
                    assert(rest[j - 1] == entries[j]);
                }
            }
            assert forall|i: int|
                0 <= i < entries.len() && lex_le(#[trigger] entries[i].0, end) implies i
                < d.len() by {
                if i > 0 {
                    assert(rest[i - 1] == entries[i]);
                    assert(i - 1 < dr.len());
                }
            }
        }
    }
}

/// A descending scan over strictly descending rows that start at or before
/// `end` visits, under an always-continuing visitor, exactly the rows whose
/// keys lie in `[begin, end]`: each exactly once, in descending order, and
/// none beyond the range.
pub proof fn lemma_descending_visits_range(
    entries: Seq<Row>,
    begin: Seq<u8>,
    end: Seq<u8>,
    history: Seq<Row>,
    policy: Policy,
)
    requires
        forall|i: int, j: int| 0 <= i < j < entries.len() ==> lex_lt(
            #[trigger] entries[j].0,
            #[trigger] entries[i].0,
        ),
        forall|i: int| 0 <= i < entries.len() ==> lex_le(#[trigger] entries[i].0, end),
        forall|h: Seq<Row>, k: Seq<u8>, v: Seq<u8>| #[trigger] policy(h, k, v) == Some(true),
    ensures
        ({
            let d = planned(entries, begin, end, false, history, policy);
            &&& d.len() <= entries.len()
            &&& forall|j: int| 0 <= j < d.len() ==> #[trigger] d[j] == entries[j]
            &&& forall|j: int|
                0 <= j < d.len() ==> lex_le(begin, #[trigger] d[j].0) && lex_le(d[j].0, end)
            &&& forall|i: int|
                0 <= i < entries.len() && lex_le(begin, #[trigger] entries[i].0) ==> i < d.len()
            &&& planned_ok(entries, begin, end, false, history, policy)
        }),
    decreases entries.len(),
{
    if entries.len() > 0 {
        let e0 = entries[0];
        assert(!lex_lt(end, e0.0));
        if lex_lt(e0.0, begin) {
            assert forall|i: int| 0 <= i < entries.len() implies !lex_le(
                begin,
                #[trigger] entries[i].0,
            ) by {
                if i > 0 {
                    crate::bytes::lemma_lex_transitive(entries[i].0, e0.0, begin);
                }
            }
        } else {
            let rest = entries.drop_first();
            assert forall|i: int, j: int| 0 <= i < j < rest.len() implies lex_lt(
                #[trigger] rest[j].0,
                #[trigger] rest[i].0,
            ) by {
                assert(rest[i] == entries[i + 1]);
                assert(rest[j] == entries[j + 1]);
            }
            assert forall|i: int| 0 <= i < rest.len() implies lex_le(
                #[trigger] rest[i].0,
                end,
            ) by {
                assert(rest[i] == entries[i + 1]);
            }
            lemma_descending_visits_range(rest, begin, end, history.push(e0), policy);
            let d = planned(entries, begin, end, false, history, policy);
            let dr = planned(rest, begin, end, false, history.push(e0), policy);
            assert(d =~= seq![e0] + dr);
            assert forall|j: int| 0 <= j < d.len() implies #[trigger] d[j] == entries[j] by {
                if j > 0 {
                    assert(d[j] == dr[j - 1]);
                    assert(dr[j - 1] == rest[j - 1]);
                    assert(rest[j - 1] == entries[j]);
                }
            }
            assert forall|i: int|
                0 <= i < entries.len() && lex_le(begin, #[trigger] entries[i].0) implies i
                < d.len() by {
                if i > 0 {
                    assert(rest[i - 1] == entries[i]);
                    assert(i - 1 < dr.len());
                }
            }
        }
    }
}

/// Reversing the direction flag yields the reverse visit sequence: over
/// strictly ascending rows that all lie in `[begin, end]`, the ascending
/// scan visits them all in order, and the descending scan (which yields the
/// same rows in reverse cursor order) visits exactly the reverse.
pub proof fn lemma_reverse_direction(
    entries: Seq<Row>,
    begin: Seq<u8>,
    end: Seq<u8>,
    history_up: Seq<Row>,
    history_down: Seq<Row>,
    policy: Policy,
)
    requires
        forall|i: int, j: int| 0 <= i < j < entries.len() ==> lex_lt(
            #[trigger] entries[i].0,
            #[trigger] entries[j].0,
        ),
        forall|i: int|
            0 <= i < entries.len() ==> lex_le(begin, #[trigger] entries[i].0) && lex_le(
                entries[i].0,
                end,
            ),
        forall|h: Seq<Row>, k: Seq<u8>, v: Seq<u8>| #[trigger] policy(h, k, v) == Some(true),
    ensures
        planned(entries, begin, end, false, history_up, policy) =~= entries,
        planned(entries.reverse(), begin, end, false, history_down, policy)
            =~= entries.reverse(),
{
    lemma_ascending_visits_range(entries, begin, end, history_up, policy);
    let rev = entries.reverse();
    assert(rev.len() == entries.len());
    assert forall|i: int| 0 <= i < rev.len() implies #[trigger] rev[i]
        == entries[entries.len() - 1 - i] by {}
    assert forall|i: int, j: int| 0 <= i < j < rev.len() implies lex_lt(
        #[trigger] rev[j].0,
        #[trigger] rev[i].0,
    ) by {
        assert(rev[i] == entries[entries.len() - 1 - i]);
        assert(rev[j] == entries[entries.len() - 1 - j]);
    }
    assert forall|i: int| 0 <= i < rev.len() implies lex_le(#[trigger] rev[i].0, end) by {
        assert(rev[i] == entries[entries.len() - 1 - i]);
    }
    lemma_descending_visits_range(rev, begin, end, history_down, policy);
    assert forall|i: int| 0 <= i < rev.len() implies lex_le(begin, #[trigger] rev[i].0) by {
        assert(rev[i] == entries[entries.len() - 1 - i]);
    }
    let d = planned(entries, begin, end, false, history_up, policy);
    assert(d.len() == entries.len());
    assert(d =~= entries);
    let d2 = planned(rev, begin, end, false, history_down, policy);
    if rev.len() > 0 {
        assert(lex_le(begin, rev[rev.len() - 1].0));
        assert(rev.len() - 1 < d2.len());
    }
    assert(d2 =~= rev);
}

/// A verdict other than "continue" is final: every visited row but the last
/// received a continue verdict from the visitor's policy, evaluated on the
/// history as it stood at that visit.
pub proof fn lemma_stop_is_final(
    entries: Seq<Row>,
    begin: Seq<u8>,
    end: Seq<u8>,
    first: bool,
    history: Seq<Row>,
    policy: Policy,
)
    ensures
        ({
            let d = planned(entries, begin, end, first, history, policy);
            forall|j: int|
                0 <= j < d.len() - 1 ==> #[trigger] policy(history + d.take(j), d[j].0, d[j].1)
                    == Some(true)
        }),
    decreases entries.len(),
{
    let d = planned(entries, begin, end, first, history, policy);
    if entries.len() > 0 {
        let e0 = entries[0];
        if !lex_lt(e0.0, begin) && !lex_lt(end, e0.0) && policy(history, e0.0, e0.1)
            == Some(true) && !first {
            let rest = entries.drop_first();
            lemma_stop_is_final(rest, begin, end, first, history.push(e0), policy);
            let dr = planned(rest, begin, end, first, history.push(e0), policy);
            assert(d =~= seq![e0] + dr);
            assert forall|j: int| 0 <= j < d.len() - 1 implies #[trigger] policy(
                history + d.take(j),
                d[j].0,
                d[j].1,
            ) == Some(true) by {
                if j == 0 {
                    assert(history + d.take(0) =~= history);
                } else {
                    assert(d[j] == dr[j - 1]);
                    assert(history + d.take(j) =~= history.push(e0) + dr.take(j - 1));
                    assert(policy(history.push(e0) + dr.take(j - 1), dr[j - 1].0, dr[j - 1].1)
                        == Some(true));
                }
            }
        }
    }
}

} // verus!
