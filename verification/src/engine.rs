use vstd::prelude::*;

use crate::model::BoundDir;
use crate::model::BoundKey;
use crate::model::FetchError;
use crate::model::Notification;
use crate::model::NotificationV;
use crate::model::Reading;
use crate::model::str_eq;
use crate::table::BoundEntry;
use crate::table::BoundTable;
use crate::table::mk_key;

verus! {

/// Does threshold row `e` apply to reading `r`? Every subscriber's bounds are
/// checked against every reading; a row applies when sensor and metric match.
pub open spec fn applies(e: BoundEntry<i64>, r: Reading) -> bool {
    e.sensor_id@ == r.sensor_id@ && e.metric@ == r.metric@
}

/// Is `r` in violation of the bound row `e`: strictly below a minimum bound,
/// strictly above a maximum bound?
pub open spec fn violates(e: BoundEntry<i64>, r: Reading) -> bool {
    match e.dir {
        BoundDir::Min => (r.value as int) < (e.value as int),
        BoundDir::Max => (r.value as int) > (e.value as int),
    }
}

/// Is the alert flag for `k` currently raised?
pub open spec fn flag_raised(f: Map<BoundKey, bool>, k: BoundKey) -> bool {
    f.contains_key(k) && f[k]
}

/// Flag state after evaluating one threshold row against one reading: the
/// flag follows the violation status; rows that do not apply change nothing.
pub open spec fn step_flags(e: BoundEntry<i64>, r: Reading, f: Map<BoundKey, bool>) -> Map<BoundKey, bool> {
    if !applies(e, r) {
        f
    } else if violates(e, r) {
        f.insert(e.key(), true)
    } else {
        f.insert(e.key(), false)
    }
}

/// The notification one threshold row emits for one reading, if any: exactly
/// on the transition into violation (violating now, flag not yet raised).
pub open spec fn step_note(e: BoundEntry<i64>, r: Reading, f: Map<BoundKey, bool>) -> Option<NotificationV> {
    if applies(e, r) && violates(e, r) && !flag_raised(f, e.key()) {
        Some(NotificationV {
            subscriber: e.subscriber as int,
            sensor_id: r.sensor_id@,
            metric: r.metric@,
            dir: e.dir,
            value: r.value as int,
            bound: e.value as int,
        })
    } else {
        None
    }
}

/// An optional notification, as the sequence it contributes.
pub open spec fn opt_seq(o: Option<NotificationV>) -> Seq<NotificationV> {
    match o {
        Some(n) => seq![n],
        None => Seq::empty(),
    }
}

/// Flag state after evaluating all threshold rows, in order, against one
/// reading.
pub open spec fn reading_flags(r: Reading, es: Seq<BoundEntry<i64>>, f: Map<BoundKey, bool>) -> Map<BoundKey, bool>
    decreases es.len(),
{
    if es.len() == 0 {
        f
    } else {
        reading_flags(r, es.drop_first(), step_flags(es[0], r, f))
    }
}

/// The notifications all threshold rows emit, in row order, for one reading.
pub open spec fn reading_notes(r: Reading, es: Seq<BoundEntry<i64>>, f: Map<BoundKey, bool>) -> Seq<NotificationV>
    decreases es.len(),
{
    if es.len() == 0 {
        Seq::empty()
    } else {
        opt_seq(step_note(es[0], r, f)) + reading_notes(r, es.drop_first(), step_flags(es[0], r, f))
    }
}

/// Flag state after one whole tick: every reading, in order, against every
/// threshold row.
pub open spec fn tick_flags(rs: Seq<Reading>, es: Seq<BoundEntry<i64>>, f: Map<BoundKey, bool>) -> Map<BoundKey, bool>
    decreases rs.len(),
{
    if rs.len() == 0 {
        f
    } else {
        tick_flags(rs.drop_first(), es, reading_flags(rs[0], es, f))
    }
}

/// The notifications one whole tick emits, in reading order then row order.
pub open spec fn tick_notes(rs: Seq<Reading>, es: Seq<BoundEntry<i64>>, f: Map<BoundKey, bool>) -> Seq<NotificationV>
    decreases rs.len(),
{
    if rs.len() == 0 {
        Seq::empty()
    } else {
        reading_notes(rs[0], es, f) + tick_notes(rs.drop_first(), es, reading_flags(rs[0], es, f))
    }
}

/// The spec-level images of a sequence of notifications.
pub open spec fn views_of(ns: Seq<Notification>) -> Seq<NotificationV>
    decreases ns.len(),
{
    if ns.len() == 0 {
        Seq::empty()
    } else {
        views_of(ns.drop_last()).push(ns.last()@)
    }
}

proof fn lemma_views_push(ns: Seq<Notification>, n: Notification)
    ensures
        views_of(ns.push(n)) == views_of(ns).push(n@),
{
    assert(ns.push(n).drop_last() =~= ns);
    assert(ns.push(n).last() == n);
}

proof fn lemma_views_concat(a: Seq<Notification>, b: Seq<Notification>)
    ensures
        views_of(a + b) == views_of(a) + views_of(b),
    decreases b.len(),
{
    if b.len() == 0 {
        assert(a + b =~= a);
        assert(views_of(a) + views_of(b) =~= views_of(a));
    } else {
        lemma_views_concat(a, b.drop_last());
        assert((a + b).drop_last() =~= a + b.drop_last());
        assert((a + b).last() == b.last());
        assert(views_of(a) + views_of(b.drop_last()).push(b.last()@)
            =~= (views_of(a) + views_of(b.drop_last())).push(b.last()@));
    }
}

/// One tick with a single reading and a single stored bound reduces to one
/// edge-triggered step: the laws below, stated over the step functions,
/// therefore speak about whole ticks.
pub proof fn lemma_singleton_tick(r: Reading, e: BoundEntry<i64>, f: Map<BoundKey, bool>)
    ensures
        tick_flags(seq![r], seq![e], f) == step_flags(e, r, f),
        tick_notes(seq![r], seq![e], f) == opt_seq(step_note(e, r, f)),
{
    let rs = seq![r];
    let es = seq![e];
    let empty_es = Seq::<BoundEntry<i64>>::empty();
    assert(es.len() == 1 && es[0] == e);
    assert(rs.len() == 1 && rs[0] == r);
    assert(es.drop_first() =~= empty_es);
    assert(rs.drop_first() =~= Seq::<Reading>::empty());
    assert(reading_flags(r, es, f) == reading_flags(r, empty_es, step_flags(e, r, f)));
    assert(reading_flags(r, empty_es, step_flags(e, r, f)) == step_flags(e, r, f));
    assert(reading_notes(r, es, f) == opt_seq(step_note(e, r, f)) + reading_notes(r, empty_es, step_flags(e, r, f)));
    assert(reading_notes(r, es, f) =~= opt_seq(step_note(e, r, f)));
    assert(tick_flags(rs, es, f) == tick_flags(rs.drop_first(), es, reading_flags(r, es, f)));
    assert(tick_notes(rs, es, f) == reading_notes(r, es, f) + tick_notes(rs.drop_first(), es, reading_flags(r, es, f)));
    assert(tick_notes(rs, es, f) =~= opt_seq(step_note(e, r, f)));
}

/// A minimum bound notifies exactly on the edge: for a reading `r` and an
/// applicable "min" row `e`, a notification fires iff `r.value` is below the
/// bound and the flag for that key was not already raised. After a violating
/// step the flag is raised, so repeating the same violation on the next tick
/// with the flag unchanged does not notify again.
pub proof fn lemma_min_edge(e: BoundEntry<i64>, r: Reading, f: Map<BoundKey, bool>)
    requires
        applies(e, r),
        e.dir == BoundDir::Min,
    ensures
        (step_note(e, r, f) is Some) <==> ((r.value as int) < (e.value as int) && !flag_raised(f, e.key())),
        violates(e, r) ==> flag_raised(step_flags(e, r, f), e.key()),
        violates(e, r) ==> step_note(e, r, step_flags(e, r, f)) is None,
{
}

/// Once a violation clears, the flag resets and a later new violation
/// notifies again: a violate → clear → violate history for one bound emits
/// exactly two notifications — at the first violation and at the new one,
/// with none in between.
pub proof fn lemma_rearm(e: BoundEntry<i64>, r1: Reading, r2: Reading, r3: Reading, f: Map<BoundKey, bool>)
    requires
        applies(e, r1),
        violates(e, r1),
        !flag_raised(f, e.key()),
        applies(e, r2),
        !violates(e, r2),
        applies(e, r3),
        violates(e, r3),
    ensures
        step_note(e, r1, f) is Some,
        step_note(e, r2, step_flags(e, r1, f)) is None,
        !flag_raised(step_flags(e, r2, step_flags(e, r1, f)), e.key()),
        step_note(e, r3, step_flags(e, r2, step_flags(e, r1, f))) is Some,
{
}

/// Evaluates one reading against every threshold row, raising and clearing
/// flags and collecting the notifications to send.
fn evaluate_reading(r: &Reading, thresholds: &BoundTable<i64>, flags: &mut BoundTable<bool>) -> (notes: Vec<Notification>)
    requires
        thresholds.wf(),
        old(flags).wf(),
    ensures
        final(flags).wf(),
        final(flags).map() == reading_flags(*r, thresholds@, old(flags).map()),
        views_of(notes@) == reading_notes(*r, thresholds@, old(flags).map()),
{
    let ghost es = thresholds@;
    let ghost f_in = flags.map();
    let rows = thresholds.entries();
    let n: usize = rows.len();
    let mut notes: Vec<Notification> = Vec::new();
    let mut j: usize = 0;
    proof {
        assert(es.skip(0) =~= es);
        assert(views_of(notes@) + reading_notes(*r, es, f_in) =~= reading_notes(*r, es, f_in));
    }
    while j < n
        invariant
            thresholds.wf(),
            flags.wf(),
            es == thresholds@,
            n == es.len(),
            0 <= j <= n,
            rows@ == es,
            reading_flags(*r, es, f_in) == reading_flags(*r, es.skip(j as int), flags.map()),
            reading_notes(*r, es, f_in) == views_of(notes@) + reading_notes(*r, es.skip(j as int), flags.map()),
        decreases n - j,
    {
        let ghost fm = flags.map();
        let ghost rest = es.skip(j as int);
        let ghost notes_before = notes@;
        proof {
            assert(rest.len() > 0);
            assert(rest[0] == es[j as int]);
            assert(rest.drop_first() =~= es.skip(j as int + 1));
        }
        let e = &rows[j];
        let ghost k = e.key();
        proof {
            assert(mk_key(e.subscriber, e.sensor_id@, e.metric@, e.dir) == k);
        }
        if str_eq(e.sensor_id.as_str(), r.sensor_id.as_str()) && str_eq(e.metric.as_str(), r.metric.as_str()) {
            assert(applies(*e, *r));
            let in_violation = match e.dir {
                BoundDir::Min => r.value < e.value,
                BoundDir::Max => r.value > e.value,
            };
            assert(in_violation == violates(*e, *r));
            if in_violation {
                let prior = flags.get(e.subscriber, e.sensor_id.as_str(), e.metric.as_str(), e.dir);
                let already = match prior {
                    Some(b) => b,
                    None => false,
                };
                assert(already == flag_raised(fm, k));
                if !already {
                    let note = Notification {
                        subscriber: e.subscriber,
                        sensor_id: r.sensor_id.clone(),
                        metric: r.metric.clone(),
                        dir: e.dir,
                        value: r.value,
                        bound: e.value,
                    };
                    proof {
                        assert(step_note(*e, *r, fm) == Some(note@));
                    }
                    notes.push(note);
                    proof {
                        lemma_views_push(notes_before, note);
                        assert(views_of(notes@) =~= views_of(notes_before) + opt_seq(step_note(*e, *r, fm)));
                    }
                    flags.set(e.subscriber, e.sensor_id.as_str(), e.metric.as_str(), e.dir, true);
                    assert(flags.map() == step_flags(*e, *r, fm));
                } else {
                    proof {
                        assert(step_note(*e, *r, fm) is None);
                        assert(fm =~= fm.insert(k, true));
                        assert(flags.map() == step_flags(*e, *r, fm));
                        assert(views_of(notes@) =~= views_of(notes_before) + opt_seq(step_note(*e, *r, fm)));
                    }
                }
            } else {
                flags.set(e.subscriber, e.sensor_id.as_str(), e.metric.as_str(), e.dir, false);
                proof {
                    assert(step_note(*e, *r, fm) is None);
                    assert(flags.map() == step_flags(*e, *r, fm));
                    assert(views_of(notes@) =~= views_of(notes_before) + opt_seq(step_note(*e, *r, fm)));
                }
            }
        } else {
            proof {
                assert(!applies(*e, *r));
                assert(step_note(*e, *r, fm) is None);
                assert(flags.map() == step_flags(*e, *r, fm));
                assert(views_of(notes@) =~= views_of(notes_before) + opt_seq(step_note(*e, *r, fm)));
            }
        }
        proof {
            assert(*e == es[j as int]);
            assert(reading_flags(*r, rest, fm) == reading_flags(*r, es.skip(j as int + 1), flags.map()));
            assert(reading_notes(*r, rest, fm)
                == opt_seq(step_note(*e, *r, fm)) + reading_notes(*r, es.skip(j as int + 1), flags.map()));
            assert(views_of(notes_before) + (opt_seq(step_note(*e, *r, fm)) + reading_notes(*r, es.skip(j as int + 1), flags.map()))
                =~= (views_of(notes_before) + opt_seq(step_note(*e, *r, fm))) + reading_notes(*r, es.skip(j as int + 1), flags.map()));
        }
        j = j + 1;
    }
    proof {
        assert(es.skip(n as int) =~= Seq::<BoundEntry<i64>>::empty());
        assert(reading_notes(*r, es.skip(n as int), flags.map()) =~= Seq::<NotificationV>::empty());
        assert(views_of(notes@) + Seq::<NotificationV>::empty() =~= views_of(notes@));
    }
    notes
}

/// Evaluates one tick's readings against every stored threshold: flags end in
/// the state `tick_flags` gives, and exactly the notifications `tick_notes`
/// gives are returned, in that order.
pub fn evaluate_tick(readings: &Vec<Reading>, thresholds: &BoundTable<i64>, flags: &mut BoundTable<bool>) -> (notes: Vec<Notification>)
    requires
        thresholds.wf(),
        old(flags).wf(),
    ensures
        final(flags).wf(),
        final(flags).map() == tick_flags(readings@, thresholds@, old(flags).map()),
        views_of(notes@) == tick_notes(readings@, thresholds@, old(flags).map()),
{
    let ghost es = thresholds@;
    let ghost f_in = flags.map();
    let n: usize = readings.len();
    let mut notes: Vec<Notification> = Vec::new();
    let mut i: usize = 0;
    proof {
        assert(readings@.skip(0) =~= readings@);
        assert(views_of(notes@) + tick_notes(readings@, es, f_in) =~= tick_notes(readings@, es, f_in));
    }
    while i < n
        invariant
            thresholds.wf(),
            flags.wf(),
            es == thresholds@,
            n == readings@.len(),
            0 <= i <= n,
            tick_flags(readings@, es, f_in) == tick_flags(readings@.skip(i as int), es, flags.map()),
            tick_notes(readings@, es, f_in) == views_of(notes@) + tick_notes(readings@.skip(i as int), es, flags.map()),
        decreases n - i,
    {
        let ghost fm = flags.map();
        let ghost rest = readings@.skip(i as int);
        proof {
            assert(rest[0] == readings@[i as int]);
            assert(rest.drop_first() =~= readings@.skip(i as int + 1));
        }
        let r = &readings[i];
        let ghost notes0 = notes@;
        let mut sub = evaluate_reading(r, thresholds, flags);
        let ghost subv = sub@;
        notes.append(&mut sub);
        proof {
            assert(notes@ == notes0 + subv);
            lemma_views_concat(notes0, subv);
            assert(tick_flags(rest, es, fm) == tick_flags(readings@.skip(i as int + 1), es, flags.map()));
            assert(tick_notes(rest, es, fm)
                == reading_notes(readings@[i as int], es, fm) + tick_notes(readings@.skip(i as int + 1), es, flags.map()));
            assert(views_of(notes0) + (views_of(subv) + tick_notes(readings@.skip(i as int + 1), es, flags.map()))
                =~= views_of(notes@) + tick_notes(readings@.skip(i as int + 1), es, flags.map()));
        }
        i = i + 1;
    }
    proof {
        assert(readings@.skip(n as int) =~= Seq::<Reading>::empty());
        assert(views_of(notes@) + tick_notes(readings@.skip(n as int), es, flags.map()) =~= views_of(notes@));
    }
    notes
}

/// Applies the outcome of one fetch to the alerting state. On data, this is
/// one full tick. On a fetch failure the tick is skipped: no flag changes, no
/// notifications — the driver simply tries again on the next tick.
pub fn apply_fetch(result: &Result<Vec<Reading>, FetchError>, thresholds: &BoundTable<i64>, flags: &mut BoundTable<bool>) -> (notes: Vec<Notification>)
    requires
        thresholds.wf(),
        old(flags).wf(),
    ensures
        final(flags).wf(),
        match result {
            Ok(rs) => final(flags).map() == tick_flags(rs@, thresholds@, old(flags).map())
                && views_of(notes@) == tick_notes(rs@, thresholds@, old(flags).map()),
            Err(_) => *final(flags) == *old(flags) && notes@ == Seq::<Notification>::empty(),
        },
{
    match result {
        Ok(rs) => evaluate_tick(rs, thresholds, flags),
        Err(_) => Vec::new(),
    }
}

} // verus!
