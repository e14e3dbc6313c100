//! The popup lifecycle engine.
//!
//! A bounded set of popup entries, each cycling through slide-in, display
//! and slide-out. Every operation takes the current time in milliseconds as
//! an argument, so the whole engine is a pure function of its state and the
//! clock: phase changes happen only in [`PopupState::tick`], eviction in
//! [`PopupState::enqueue`], and early exit in [`PopupState::dismiss`].

use crate::config::NotificationsModuleConfig;
use crate::easing::{
    ease_in_cubic, ease_out_back, ease_out_cubic, lemma_cubic_in_unit, spec_ease_in_cubic,
    spec_ease_out_back, spec_ease_out_cubic, PROGRESS_SCALE,
};
use crate::notification::Notification;
use vstd::arithmetic::div_mod::{lemma_div_is_ordered, lemma_div_multiples_vanish,
    lemma_div_pos_is_pos};
use vstd::arithmetic::mul::lemma_mul_inequality;
use vstd::prelude::*;

verus! {

/// The animation stage of one popup entry.
#[derive(Debug, Clone, Copy, PartialEq, Eq, Structural)]
pub enum PopupPhase {
    SlideIn,
    Display,
    SlideOut,
}

/// One popup: a notification with its current phase, the time the phase
/// began, and how long the entry stays in the display phase.
#[derive(Debug)]
pub struct PopupEntry {
    pub notification: Notification,
    pub phase: PopupPhase,
    pub phase_started: u64,
    pub display_duration: u64,
}

/// The popup engine: entries in arrival order (oldest first), the cap on
/// simultaneously visible entries, and the slide animation length.
#[derive(Debug)]
pub struct PopupState {
    pub entries: Vec<PopupEntry>,
    pub max_visible: usize,
    pub animation_duration: u64,
}

/// Whether an entry is on its way out.
pub open spec fn is_sliding_out(e: PopupEntry) -> bool {
    e.phase == PopupPhase::SlideOut
}

/// The same entry, forced into slide-out at `now`.
pub open spec fn slid_out(e: PopupEntry, now: u64) -> PopupEntry {
    PopupEntry { phase: PopupPhase::SlideOut, phase_started: now, ..e }
}

/// How many entries are not sliding out.
pub open spec fn count_active(s: Seq<PopupEntry>) -> nat
    decreases s.len(),
{
    if s.len() == 0 {
        0
    } else {
        count_active(s.drop_last()) + (if is_sliding_out(s.last()) {
            0nat
        } else {
            1nat
        })
    }
}

/// How many active (non-slide-out) entries stand before index `j`: the
/// seniority of position `j` among the active entries.
pub open spec fn active_rank(s: Seq<PopupEntry>, j: int) -> nat {
    count_active(s.take(j))
}

/// The list with the `k` oldest active entries forced into slide-out at
/// `now`: exactly those active positions whose seniority is below `k`.
pub open spec fn force_oldest(s: Seq<PopupEntry>, k: nat, now: u64) -> Seq<PopupEntry> {
    Seq::new(
        s.len(),
        |j: int|
            if !is_sliding_out(s[j]) && active_rank(s, j) < k {
                slid_out(s[j], now)
            } else {
                s[j]
            },
    )
}

/// The list without the entries that carry the given notification id.
pub open spec fn remove_entry_id(s: Seq<PopupEntry>, id: u32) -> Seq<PopupEntry>
    decreases s.len(),
{
    if s.len() == 0 {
        s
    } else {
        let rest = remove_entry_id(s.drop_last(), id);
        if s.last().notification.id == id {
            rest
        } else {
            rest.push(s.last())
        }
    }
}

/// The index of the first entry with the given id, or -1 if none.
pub open spec fn find_entry_id(s: Seq<PopupEntry>, id: u32) -> int
    decreases s.len(),
{
    if s.len() == 0 {
        -1
    } else if s[0].notification.id == id {
        0
    } else {
        let rest = find_entry_id(s.skip(1), id);
        if rest == -1 {
            -1
        } else {
            rest + 1
        }
    }
}

/// The queue the new entry joins before eviction: the old list without the
/// replaced id, with the fresh slide-in entry appended.
pub open spec fn enqueue_candidate(
    s: Seq<PopupEntry>,
    n: Notification,
    duration: u64,
    now: u64,
) -> Seq<PopupEntry> {
    remove_entry_id(s, n.id).push(
        (PopupEntry {
            notification: n,
            phase: PopupPhase::SlideIn,
            phase_started: now,
            display_duration: duration,
        }),
    )
}

/// How many of the oldest active entries the cap forces out.
pub open spec fn surplus_over(s: Seq<PopupEntry>, max_visible: nat) -> nat {
    if count_active(s) > max_visible {
        (count_active(s) - max_visible) as nat
    } else {
        0
    }
}

/// What a whole enqueue leaves behind.
pub open spec fn spec_enqueue(
    s: Seq<PopupEntry>,
    n: Notification,
    duration: u64,
    now: u64,
    max_visible: nat,
) -> Seq<PopupEntry> {
    let candidate = enqueue_candidate(s, n, duration, now);
    force_oldest(candidate, surplus_over(candidate, max_visible), now)
}

/// Whether some action carries the reserved key `default`.
pub open spec fn has_default_key(actions: Seq<(String, String)>) -> bool {
    exists|k: int| 0 <= k < actions.len() && (#[trigger] actions[k]).0@ == "default"@
}

/// Whether the entry with this id carries an action under the reserved
/// key `default`, the primary click action.
pub open spec fn spec_has_default_action(s: Seq<PopupEntry>, id: u32) -> bool {
    let j = find_entry_id(s, id);
    j >= 0 && has_default_key(s[j].notification.actions@)
}

/// At most one popup entry per notification id.
pub open spec fn entry_ids_unique(s: Seq<PopupEntry>) -> bool {
    forall|i: int, j: int|
        0 <= i < j < s.len() ==> s[i].notification.id != s[j].notification.id
}

/// What a dismiss leaves behind: the first entry with the id is forced out
/// if it is present and not already sliding out; otherwise nothing moves.
pub open spec fn spec_dismiss(s: Seq<PopupEntry>, id: u32, now: u64) -> Seq<PopupEntry> {
    let j = find_entry_id(s, id);
    if j >= 0 && !is_sliding_out(s[j]) {
        s.update(j, slid_out(s[j], now))
    } else {
        s
    }
}

// ---------------------------------------------------------------------
// Counting lemmas.
// ---------------------------------------------------------------------

/// Counting a prefix one longer adds exactly the contribution of the new
/// position.
proof fn lemma_count_active_take_step(s: Seq<PopupEntry>, j: int)
    requires
        0 <= j < s.len(),
    ensures
        count_active(s.take(j + 1)) == count_active(s.take(j)) + (if is_sliding_out(s[j]) {
            0nat
        } else {
            1nat
        }),
{
    assert(s.take(j + 1).drop_last() =~= s.take(j));
    assert(s.take(j + 1).last() == s[j]);
}

/// The whole list is its own full prefix.
proof fn lemma_count_active_full(s: Seq<PopupEntry>)
    ensures
        count_active(s.take(s.len() as int)) == count_active(s),
{
    assert(s.take(s.len() as int) =~= s);
}

/// No prefix counts more active entries than a longer one.
proof fn lemma_active_rank_monotone(s: Seq<PopupEntry>, i1: int, i2: int)
    requires
        0 <= i1 <= i2 <= s.len(),
    ensures
        count_active(s.take(i1)) <= count_active(s.take(i2)),
    decreases i2 - i1,
{
    if i1 < i2 {
        lemma_active_rank_monotone(s, i1, i2 - 1);
        lemma_count_active_take_step(s, i2 - 1);
    }
}

/// A position's seniority never exceeds the count of any covering prefix,
/// and active positions below a seniority bound keep the next rank within
/// that bound.
proof fn lemma_active_rank_bound(s: Seq<PopupEntry>, j: int, k: nat)
    requires
        0 <= j <= s.len(),
        forall|i: int| 0 <= i < j && !is_sliding_out(s[i]) ==> active_rank(s, i) < k,
    ensures
        active_rank(s, j) <= k,
    decreases j,
{
    if j > 0 {
        lemma_active_rank_bound(s, j - 1, k);
        lemma_count_active_take_step(s, j - 1);
    }
}

/// Replacing an active entry by a slide-out one lowers the count by one;
/// counts of prefixes to the left of the change are untouched.
proof fn lemma_count_active_update_out(s: Seq<PopupEntry>, j: int, e: PopupEntry)
    requires
        0 <= j < s.len(),
        !is_sliding_out(s[j]),
        is_sliding_out(e),
    ensures
        count_active(s.update(j, e)) + 1 == count_active(s),
    decreases s.len(),
{
    let t = s.update(j, e);
    if j == s.len() - 1 {
        assert(t.drop_last() =~= s.drop_last());
        assert(t.last() == e);
    } else {
        assert(t.drop_last() =~= s.drop_last().update(j, e));
        lemma_count_active_update_out(s.drop_last(), j, e);
        assert(t.last() == s.last());
    }
}

/// If every entry is sliding out, the count is zero, and conversely a
/// positive count yields an active index.
proof fn lemma_count_active_zero(s: Seq<PopupEntry>)
    ensures
        (forall|i: int| 0 <= i < s.len() ==> is_sliding_out(s[i])) ==> count_active(s) == 0,
        count_active(s) > 0 ==> exists|i: int| 0 <= i < s.len() && !is_sliding_out(s[i]),
    decreases s.len(),
{
    if s.len() > 0 {
        lemma_count_active_zero(s.drop_last());
        assert(forall|i: int|
            0 <= i < s.drop_last().len() ==> s.drop_last()[i] == s[i]);
    }
}

/// The count never exceeds the length.
proof fn lemma_count_active_le_len(s: Seq<PopupEntry>)
    ensures
        count_active(s) <= s.len(),
    decreases s.len(),
{
    if s.len() > 0 {
        lemma_count_active_le_len(s.drop_last());
    }
}

// ---------------------------------------------------------------------
// Eviction lemmas.
// ---------------------------------------------------------------------

/// Forcing zero entries changes nothing.
proof fn lemma_force_oldest_zero(s: Seq<PopupEntry>, now: u64)
    ensures
        force_oldest(s, 0, now) =~= s,
{
}

/// Marking the first still-active entry of `force_oldest(s, k)` advances
/// the eviction to `k + 1`, and that entry's seniority is exactly `k`.
proof fn lemma_force_oldest_step(s: Seq<PopupEntry>, k: nat, now: u64, j: int)
    requires
        0 <= j < s.len(),
        !is_sliding_out(force_oldest(s, k, now)[j]),
        forall|i: int| 0 <= i < j ==> is_sliding_out(#[trigger] force_oldest(s, k, now)[i]),
    ensures
        !is_sliding_out(s[j]),
        active_rank(s, j) == k,
        force_oldest(s, k, now).update(j, slid_out(s[j], now)) =~= force_oldest(
            s,
            (k + 1) as nat,
            now,
        ),
{
    let f = force_oldest(s, k, now);
    // The marked entry is active in s and has seniority at least k,
    // else it would already have been forced out.
    assert(!is_sliding_out(s[j]) && active_rank(s, j) >= k);
    // Every active position before j is forced, so its seniority is below k.
    assert forall|i: int| 0 <= i < j && !is_sliding_out(s[i]) implies active_rank(s, i) < k by {
        assert(is_sliding_out(f[i]));
    }
    lemma_active_rank_bound(s, j, k);
    assert(active_rank(s, j) == k);
    // Pointwise comparison with the (k + 1)-eviction.
    let g = force_oldest(s, (k + 1) as nat, now);
    let u = f.update(j, slid_out(s[j], now));
    assert forall|i: int| 0 <= i < s.len() implies u[i] == g[i] by {
        if i < j {
        } else if i == j {
        } else {
            lemma_active_rank_monotone(s, j + 1, i);
            lemma_count_active_take_step(s, j);
            assert(active_rank(s, i) >= k + 1);
        }
    }
}

/// Eviction changes phases only: length, notifications, order and display
/// durations are untouched, active entries stay active only if their
/// seniority is at least `k`, and nothing already sliding out moves.
pub proof fn lemma_force_oldest_shape(s: Seq<PopupEntry>, k: nat, now: u64)
    ensures
        force_oldest(s, k, now).len() == s.len(),
        forall|j: int|
            0 <= j < s.len() ==> (#[trigger] force_oldest(s, k, now)[j]).notification
                == s[j].notification && force_oldest(s, k, now)[j].display_duration
                == s[j].display_duration,
        forall|j: int|
            0 <= j < s.len() ==> (is_sliding_out(#[trigger] force_oldest(s, k, now)[j])
                <==> (is_sliding_out(s[j]) || active_rank(s, j) < k)),
        forall|j: int|
            0 <= j < s.len() && is_sliding_out(s[j]) ==> #[trigger] force_oldest(s, k, now)[j]
                == s[j],
{
}

// ---------------------------------------------------------------------
// Removal lemmas.
// ---------------------------------------------------------------------

/// Removal by id over a one-longer prefix keeps or drops exactly the new
/// element.
proof fn lemma_remove_entry_id_take_step(s: Seq<PopupEntry>, id: u32, j: int)
    requires
        0 <= j < s.len(),
    ensures
        remove_entry_id(s.take(j + 1), id) =~= (if s[j].notification.id == id {
            remove_entry_id(s.take(j), id)
        } else {
            remove_entry_id(s.take(j), id).push(s[j])
        }),
{
    assert(s.take(j + 1).drop_last() =~= s.take(j));
    assert(s.take(j + 1).last() == s[j]);
}

/// Nothing that survives removal carries the removed id.
pub proof fn lemma_remove_entry_id_clean(s: Seq<PopupEntry>, id: u32)
    ensures
        forall|j: int|
            0 <= j < remove_entry_id(s, id).len() ==> (#[trigger] remove_entry_id(s, id)[j])
                .notification.id != id,
        remove_entry_id(s, id).len() <= s.len(),
    decreases s.len(),
{
    if s.len() > 0 {
        lemma_remove_entry_id_clean(s.drop_last(), id);
    }
}

/// What the search for an id returns: -1, or a position that carries the
/// id while no earlier one does.
pub proof fn lemma_find_entry_id_spec(s: Seq<PopupEntry>, id: u32)
    ensures
        find_entry_id(s, id) >= -1,
        find_entry_id(s, id) < s.len(),
        find_entry_id(s, id) >= 0 ==> s[find_entry_id(s, id)].notification.id == id,
        find_entry_id(s, id) >= 0 ==> forall|m: int|
            0 <= m < find_entry_id(s, id) ==> s[m].notification.id != id,
        find_entry_id(s, id) == -1 ==> forall|m: int|
            0 <= m < s.len() ==> s[m].notification.id != id,
    decreases s.len(),
{
    if s.len() > 0 && s[0].notification.id != id {
        lemma_find_entry_id_spec(s.skip(1), id);
        assert(forall|m: int| 0 <= m < s.skip(1).len() ==> s.skip(1)[m] == s[m + 1]);
        if find_entry_id(s, id) == -1 {
            assert forall|m: int| 0 <= m < s.len() implies s[m].notification.id != id by {
                if m > 0 {
                    assert(s.skip(1)[m - 1] == s[m]);
                }
            }
        } else {
            assert forall|m: int| 0 <= m < find_entry_id(s, id) implies s[m].notification.id
                != id by {
                if m > 0 {
                    assert(s.skip(1)[m - 1] == s[m]);
                }
            }
        }
    }
}

// ---------------------------------------------------------------------
// Time, phase advance, and progress.
// ---------------------------------------------------------------------

/// Milliseconds since a phase began; a clock earlier than the phase start
/// counts as no time passed.
pub open spec fn spec_elapsed(started: u64, now: u64) -> int {
    if now >= started {
        now - started
    } else {
        0
    }
}

/// One time step of a single entry: slide-in becomes display after the
/// animation, display becomes slide-out after its display duration, and a
/// phase change restarts the phase clock at `now`.
pub open spec fn advance_entry(e: PopupEntry, anim: u64, now: u64) -> PopupEntry {
    match e.phase {
        PopupPhase::SlideIn => {
            if spec_elapsed(e.phase_started, now) >= anim {
                PopupEntry { phase: PopupPhase::Display, phase_started: now, ..e }
            } else {
                e
            }
        },
        PopupPhase::Display => {
            if spec_elapsed(e.phase_started, now) >= e.display_duration {
                PopupEntry { phase: PopupPhase::SlideOut, phase_started: now, ..e }
            } else {
                e
            }
        },
        PopupPhase::SlideOut => e,
    }
}

/// An entry whose slide-out animation has run its course is dropped.
pub open spec fn finished(e: PopupEntry, anim: u64, now: u64) -> bool {
    is_sliding_out(e) && spec_elapsed(e.phase_started, now) >= anim
}

/// The list without the entries whose slide-out has finished.
pub open spec fn remove_finished(s: Seq<PopupEntry>, anim: u64, now: u64) -> Seq<PopupEntry>
    decreases s.len(),
{
    if s.len() == 0 {
        s
    } else {
        let rest = remove_finished(s.drop_last(), anim, now);
        if finished(s.last(), anim, now) {
            rest
        } else {
            rest.push(s.last())
        }
    }
}

/// What a whole tick leaves behind: every entry advanced, finished
/// slide-outs dropped.
pub open spec fn spec_tick(s: Seq<PopupEntry>, anim: u64, now: u64) -> Seq<PopupEntry> {
    remove_finished(s.map_values(|e: PopupEntry| advance_entry(e, anim, now)), anim, now)
}

/// Whether a tick reports a change: some entry changed phase, or some
/// entry was removed.
pub open spec fn spec_tick_changed(s: Seq<PopupEntry>, anim: u64, now: u64) -> bool {
    (exists|j: int| 0 <= j < s.len() && advance_entry(#[trigger] s[j], anim, now) != s[j])
        || (exists|j: int|
        0 <= j < s.len() && finished(advance_entry(#[trigger] s[j], anim, now), anim, now))
}

/// Elapsed time mapped onto the animation's unit interval, in millionths.
/// A zero-length animation is already complete.
pub open spec fn spec_norm_progress(elapsed: int, anim: int) -> int {
    if anim <= 0 {
        PROGRESS_SCALE as int
    } else if elapsed >= anim {
        PROGRESS_SCALE as int
    } else {
        elapsed * PROGRESS_SCALE / anim
    }
}

/// The geometry progress of one entry, in millionths: eased-out cubic
/// while sliding in (never above one), constant one while displayed, and
/// one minus eased-in cubic while sliding out (never below zero).
pub open spec fn spec_entry_progress(e: PopupEntry, anim: u64, now: u64) -> int {
    match e.phase {
        PopupPhase::SlideIn => spec_ease_out_cubic(
            spec_norm_progress(spec_elapsed(e.phase_started, now), anim as int),
        ),
        PopupPhase::Display => PROGRESS_SCALE as int,
        PopupPhase::SlideOut => PROGRESS_SCALE - spec_ease_in_cubic(
            spec_norm_progress(spec_elapsed(e.phase_started, now), anim as int),
        ),
    }
}

/// Per-entry stagger before the visual slide-in starts, in milliseconds
/// for each list position.
pub const STAGGER_DELAY_MS: u64 = 40;

/// The visual reveal progress of one entry, in millionths: like the
/// geometry progress, but the slide-in waits 40 ms per list position and
/// then follows the ease-out-back curve, which may overshoot one. The exit
/// is not staggered.
pub open spec fn spec_entry_progress_staggered(
    e: PopupEntry,
    index: int,
    anim: u64,
    now: u64,
) -> int {
    match e.phase {
        PopupPhase::SlideIn => {
            let elapsed = spec_elapsed(e.phase_started, now);
            let stagger = STAGGER_DELAY_MS * index;
            let effective = if elapsed > stagger {
                elapsed - stagger
            } else {
                0
            };
            spec_ease_out_back(spec_norm_progress(effective, anim as int))
        },
        PopupPhase::Display => PROGRESS_SCALE as int,
        PopupPhase::SlideOut => PROGRESS_SCALE - spec_ease_in_cubic(
            spec_norm_progress(spec_elapsed(e.phase_started, now), anim as int),
        ),
    }
}

/// The container's visibility: the largest geometry progress over all
/// entries, zero when there are none.
pub open spec fn spec_bubble_progress(s: Seq<PopupEntry>, anim: u64, now: u64) -> int
    decreases s.len(),
{
    if s.len() == 0 {
        0
    } else {
        let rest = spec_bubble_progress(s.drop_last(), anim, now);
        let last = spec_entry_progress(s.last(), anim, now);
        if last > rest {
            last
        } else {
            rest
        }
    }
}

/// The height each popup occupies, in pixels.
pub const ENTRY_HEIGHT: i64 = 80;

/// The fixed padding of the popup surface, in pixels.
pub const SURFACE_PADDING: i64 = 16;

/// The stable surface height, in millionths of a pixel: while any entry is
/// active the full height for the active count, while everything slides
/// out the full height for the total count scaled by the largest progress,
/// and zero when empty.
pub open spec fn spec_target_height(s: Seq<PopupEntry>, anim: u64, now: u64) -> int {
    if count_active(s) > 0 {
        (count_active(s) * ENTRY_HEIGHT + SURFACE_PADDING) * PROGRESS_SCALE
    } else if s.len() > 0 {
        (s.len() * ENTRY_HEIGHT + SURFACE_PADDING) * spec_bubble_progress(s, anim, now)
    } else {
        0
    }
}

/// The unit-interval mapping is bounded and monotone in elapsed time.
proof fn lemma_norm_progress_bounds(elapsed: int, anim: int)
    requires
        0 <= elapsed,
    ensures
        0 <= spec_norm_progress(elapsed, anim) <= PROGRESS_SCALE,
        elapsed >= anim ==> spec_norm_progress(elapsed, anim) == PROGRESS_SCALE,
{
    if anim > 0 && elapsed < anim {
        assert(elapsed * PROGRESS_SCALE >= 0) by (nonlinear_arith)
            requires
                elapsed >= 0,
                PROGRESS_SCALE == 1_000_000,
        ;
        lemma_div_pos_is_pos(elapsed * PROGRESS_SCALE, anim);
        lemma_mul_inequality(elapsed, anim, PROGRESS_SCALE as int);
        lemma_div_is_ordered(elapsed * PROGRESS_SCALE, anim * PROGRESS_SCALE, anim);
        lemma_div_multiples_vanish(PROGRESS_SCALE as int, anim);
    }
}

/// More elapsed time never lowers the unit-interval mapping.
proof fn lemma_norm_progress_monotone(e1: int, e2: int, anim: int)
    requires
        0 <= e1 <= e2,
    ensures
        spec_norm_progress(e1, anim) <= spec_norm_progress(e2, anim),
{
    lemma_norm_progress_bounds(e1, anim);
    lemma_norm_progress_bounds(e2, anim);
    if anim > 0 && e2 < anim {
        lemma_mul_inequality(e1, e2, PROGRESS_SCALE as int);
        lemma_div_is_ordered(e1 * PROGRESS_SCALE, e2 * PROGRESS_SCALE, anim);
    }
}

/// An entry's geometry progress always lies in `[0, PROGRESS_SCALE]`:
/// surface geometry never overshoots.
pub proof fn lemma_entry_progress_in_unit(e: PopupEntry, anim: u64, now: u64)
    ensures
        0 <= spec_entry_progress(e, anim, now) <= PROGRESS_SCALE,
{
    lemma_norm_progress_bounds(spec_elapsed(e.phase_started, now), anim as int);
    lemma_cubic_in_unit(spec_norm_progress(spec_elapsed(e.phase_started, now), anim as int));
}

/// During slide-in the geometry progress never decreases with time, and
/// during slide-out it never increases: animations do not jitter.
pub proof fn lemma_entry_progress_monotone(e: PopupEntry, anim: u64, t1: u64, t2: u64)
    requires
        t1 <= t2,
    ensures
        e.phase == PopupPhase::SlideIn ==> spec_entry_progress(e, anim, t1)
            <= spec_entry_progress(e, anim, t2),
        e.phase == PopupPhase::SlideOut ==> spec_entry_progress(e, anim, t1)
            >= spec_entry_progress(e, anim, t2),
{
    let e1 = spec_elapsed(e.phase_started, t1);
    let e2 = spec_elapsed(e.phase_started, t2);
    lemma_norm_progress_monotone(e1, e2, anim as int);
    lemma_norm_progress_bounds(e1, anim as int);
    lemma_norm_progress_bounds(e2, anim as int);
    crate::easing::lemma_ease_out_cubic_monotone(
        spec_norm_progress(e1, anim as int),
        spec_norm_progress(e2, anim as int),
    );
    crate::easing::lemma_ease_in_cubic_monotone(
        spec_norm_progress(e1, anim as int),
        spec_norm_progress(e2, anim as int),
    );
}

/// The staggered reveal overshoots: with a 1000 ms animation an entry at
/// list position 0 stands above one whole unit 700 ms into its slide-in,
/// yet lands on exactly one unit once the animation time has fully passed.
pub proof fn lemma_staggered_bounce(e: PopupEntry, mid: u64, end: u64)
    requires
        e.phase == PopupPhase::SlideIn,
        e.phase_started + 700 == mid,
        e.phase_started + 1000 <= end,
    ensures
        spec_entry_progress_staggered(e, 0, 1000, mid) > PROGRESS_SCALE,
        spec_entry_progress_staggered(e, 0, 1000, end) == PROGRESS_SCALE,
{
    assert(spec_elapsed(e.phase_started, mid) == 700);
    assert(spec_elapsed(e.phase_started, end) >= 1000);
    vstd::arithmetic::div_mod::lemma_fundamental_div_mod_converse(
        700int * 1_000_000,
        1000int,
        700_000int,
        0int,
    );
    assert(spec_norm_progress(700, 1000) == 700_000);
    crate::easing::lemma_ease_out_back_overshoots();
}

// ---------------------------------------------------------------------
// Tick lemmas.
// ---------------------------------------------------------------------

/// Removal of finished entries over a one-longer prefix keeps or drops
/// exactly the new element.
proof fn lemma_remove_finished_take_step(s: Seq<PopupEntry>, anim: u64, now: u64, j: int)
    requires
        0 <= j < s.len(),
    ensures
        remove_finished(s.take(j + 1), anim, now) =~= (if finished(s[j], anim, now) {
            remove_finished(s.take(j), anim, now)
        } else {
            remove_finished(s.take(j), anim, now).push(s[j])
        }),
{
    assert(s.take(j + 1).drop_last() =~= s.take(j));
    assert(s.take(j + 1).last() == s[j]);
}

/// Removing finished entries keeps the length exactly when nothing is
/// finished.
proof fn lemma_remove_finished_len(s: Seq<PopupEntry>, anim: u64, now: u64)
    ensures
        remove_finished(s, anim, now).len() <= s.len(),
        (remove_finished(s, anim, now).len() == s.len()) <==> (forall|j: int|
            0 <= j < s.len() ==> !finished(#[trigger] s[j], anim, now)),
    decreases s.len(),
{
    if s.len() > 0 {
        lemma_remove_finished_len(s.drop_last(), anim, now);
        assert(forall|j: int| 0 <= j < s.len() - 1 ==> s.drop_last()[j] == s[j]);
        assert(s.last() == s[s.len() - 1]);
    }
}

/// Map elapsed time onto the animation's unit interval, in millionths.
fn norm_progress(elapsed: u64, anim: u64) -> (r: i64)
    ensures
        r == spec_norm_progress(elapsed as int, anim as int),
        0 <= r <= PROGRESS_SCALE,
{
    proof {
        lemma_norm_progress_bounds(elapsed as int, anim as int);
    }
    if anim == 0 || elapsed >= anim {
        PROGRESS_SCALE
    } else {
        let q: u128 = ((elapsed as u128) * (PROGRESS_SCALE as u128)) / (anim as u128);
        q as i64
    }
}

/// With at most `0x1000_0000` entries the height arithmetic stays far
/// from the 64-bit limits.
proof fn lemma_height_bound(count: int)
    requires
        0 <= count <= 0x1000_0000,
    ensures
        0 <= count * ENTRY_HEIGHT + SURFACE_PADDING <= 0x14_0000_0010,
        (count * ENTRY_HEIGHT + SURFACE_PADDING) * PROGRESS_SCALE <= 0x14_0000_0010 * 1_000_000,
{
    assert(0 <= count * ENTRY_HEIGHT <= 0x14_0000_0000) by (nonlinear_arith)
        requires
            0 <= count <= 0x1000_0000,
            ENTRY_HEIGHT == 80,
    ;
    assert((count * ENTRY_HEIGHT + SURFACE_PADDING) * PROGRESS_SCALE <= 0x14_0000_0010
        * 1_000_000) by (nonlinear_arith)
        requires
            0 <= count * ENTRY_HEIGHT + SURFACE_PADDING <= 0x14_0000_0010,
            PROGRESS_SCALE == 1_000_000,
    ;
    assert(0x14_0000_0010 * 1_000_000 < 0x7fff_ffff_ffff_ffff) by (nonlinear_arith);
}

/// Scaling a bounded base height by a unit-interval progress stays within
/// 64 bits and above zero.
proof fn lemma_height_scale(base: int, progress: int)
    requires
        0 <= base <= 0x14_0000_0010,
        0 <= progress <= PROGRESS_SCALE,
    ensures
        0 <= base * progress <= 0x14_0000_0010 * 1_000_000,
{
    assert(0 <= base * progress <= 0x14_0000_0010 * 1_000_000) by (nonlinear_arith)
        requires
            0 <= base <= 0x14_0000_0010,
            0 <= progress <= PROGRESS_SCALE,
            PROGRESS_SCALE == 1_000_000,
    ;
}

// ---------------------------------------------------------------------
// The engine.
// ---------------------------------------------------------------------

impl PopupState {
    pub fn new(config: &NotificationsModuleConfig) -> (s: Self)
        ensures
            s.entries@ == Seq::<PopupEntry>::empty(),
            s.max_visible == config.popup_max_visible,
            s.animation_duration == config.popup_animation_ms,
    {
        PopupState {
            entries: Vec::new(),
            max_visible: config.popup_max_visible,
            animation_duration: config.popup_animation_ms,
        }
    }

    pub fn update_config(&mut self, config: &NotificationsModuleConfig)
        ensures
            final(self).entries@ == old(self).entries@,
            final(self).max_visible == config.popup_max_visible,
            final(self).animation_duration == config.popup_animation_ms,
    {
        self.max_visible = config.popup_max_visible;
        self.animation_duration = config.popup_animation_ms;
    }

    /// Whether any popup is still on screen; the host polls the engine only
    /// while this holds.
    pub fn is_active(&self) -> (r: bool)
        ensures
            r == (self.entries@.len() != 0),
    {
        self.entries.len() > 0
    }

    /// Whether the popup with this id carries a primary click action: an
    /// action whose key is the reserved word `default`. A click on such a
    /// popup invokes that action; on any other popup it does nothing.
    pub fn has_default_action(&self, id: u32) -> (r: bool)
        ensures
            r == spec_has_default_action(self.entries@, id),
    {
        let ghost s = self.entries@;
        let key: String = String::from_str("default");
        let mut i: usize = 0;
        proof {
            assert(s.skip(0) =~= s);
        }
        while i < self.entries.len()
            invariant
                i <= s.len(),
                self.entries@ == s,
                key@ == "default"@,
                forall|m: int| 0 <= m < i ==> s[m].notification.id != id,
                find_entry_id(s, id) == (if find_entry_id(s.skip(i as int), id) == -1 {
                    -1int
                } else {
                    find_entry_id(s.skip(i as int), id) + i
                }),
            decreases s.len() - i,
        {
            proof {
                assert(s.skip(i as int)[0] == s[i as int]);
                assert(s.skip(i as int).skip(1) =~= s.skip(i + 1));
            }
            if self.entries[i].notification.id == id {
                proof {
                    assert(find_entry_id(s.skip(i as int), id) == 0);
                    assert(find_entry_id(s, id) == i);
                }
                let actions = &self.entries[i].notification.actions;
                let mut k: usize = 0;
                while k < actions.len()
                    invariant
                        k <= actions@.len(),
                        key@ == "default"@,
                        self.entries@ == s,
                        0 <= find_entry_id(s, id) < s.len(),
                        actions@ == s[find_entry_id(s, id)].notification.actions@,
                        forall|m: int| 0 <= m < k ==> (#[trigger] actions@[m]).0@ != "default"@,
                    decreases actions@.len() - k,
                {
                    if actions[k].0 == key {
                        proof {
                            assert((#[trigger] actions@[k as int]).0@ == "default"@);
                            assert(has_default_key(actions@));
                        }
                        return true;
                    }
                    k = k + 1;
                }
                return false;
            }
            proof {
                lemma_find_entry_id_spec(s.skip(i + 1), id);
                assert(find_entry_id(s.skip(i as int), id) == (if find_entry_id(
                    s.skip(i + 1),
                    id,
                ) == -1 {
                    -1int
                } else {
                    find_entry_id(s.skip(i + 1), id) + 1
                }));
            }
            i = i + 1;
        }
        proof {
            assert(s.skip(i as int).len() == 0);
            assert(find_entry_id(s, id) == -1);
        }
        false
    }

    /// How many entries are not sliding out.
    fn count_active_entries(&self) -> (c: usize)
        ensures
            c == count_active(self.entries@),
    {
        let mut c: usize = 0;
        let mut i: usize = 0;
        proof {
            lemma_count_active_le_len(self.entries@);
        }
        while i < self.entries.len()
            invariant
                i <= self.entries@.len(),
                c == count_active(self.entries@.take(i as int)),
                c <= i,
            decreases self.entries@.len() - i,
        {
            proof {
                lemma_count_active_take_step(self.entries@, i as int);
            }
            if !matches!(self.entries[i].phase, PopupPhase::SlideOut) {
                c = c + 1;
            }
            i = i + 1;
        }
        proof {
            lemma_count_active_full(self.entries@);
        }
        c
    }

    /// Drop every entry with this notification id, keeping order.
    fn remove_entries_with_id(&mut self, id: u32)
        ensures
            final(self).entries@ == remove_entry_id(old(self).entries@, id),
            final(self).max_visible == old(self).max_visible,
            final(self).animation_duration == old(self).animation_duration,
    {
        let ghost orig = self.entries@;
        let mut i: usize = 0;
        let ghost j: int = 0;
        proof {
            assert(orig.take(0) =~= Seq::<PopupEntry>::empty());
            assert(orig.skip(0) =~= orig);
            assert(self.entries@ =~= remove_entry_id(orig.take(0), id) + orig.skip(0));
        }
        while i < self.entries.len()
            invariant
                0 <= j <= orig.len(),
                self.entries@ =~= remove_entry_id(orig.take(j), id) + orig.skip(j),
                i == remove_entry_id(orig.take(j), id).len(),
                self.max_visible == old(self).max_visible,
                self.animation_duration == old(self).animation_duration,
            decreases orig.len() - j,
        {
            proof {
                lemma_remove_entry_id_take_step(orig, id, j);
                assert(orig.skip(j).len() > 0);
                assert(self.entries@[i as int] == orig.skip(j)[0]);
                assert(orig.skip(j)[0] == orig[j]);
                assert(orig.skip(j).skip(1) =~= orig.skip(j + 1));
            }
            if self.entries[i].notification.id == id {
                self.entries.remove(i);
                proof {
                    assert(self.entries@ =~= remove_entry_id(orig.take(j + 1), id) + orig.skip(
                        j + 1,
                    ));
                }
            } else {
                i = i + 1;
                proof {
                    assert(self.entries@ =~= remove_entry_id(orig.take(j + 1), id) + orig.skip(
                        j + 1,
                    ));
                }
            }
            proof {
                j = j + 1;
            }
        }
        proof {
            assert(orig.take(j) =~= orig);
            assert(orig.skip(j) =~= Seq::<PopupEntry>::empty());
            assert(remove_entry_id(orig, id) + Seq::<PopupEntry>::empty() =~= remove_entry_id(
                orig,
                id,
            ));
        }
    }

    /// The position of the oldest entry that is not sliding out.
    fn find_first_active(&self) -> (j: usize)
        requires
            count_active(self.entries@) > 0,
        ensures
            j < self.entries@.len(),
            !is_sliding_out(self.entries@[j as int]),
            forall|i: int| 0 <= i < j ==> is_sliding_out(self.entries@[i]),
    {
        let mut j: usize = 0;
        while j < self.entries.len()
            invariant
                j <= self.entries@.len(),
                forall|i: int| 0 <= i < j ==> is_sliding_out(self.entries@[i]),
            decreases self.entries@.len() - j,
        {
            if !matches!(self.entries[j].phase, PopupPhase::SlideOut) {
                return j;
            }
            j = j + 1;
        }
        proof {
            lemma_count_active_zero(self.entries@);
        }
        0
    }

    /// Add a notification as a fresh slide-in popup. An entry with the same
    /// id is replaced (its animation restarts), and if more than
    /// `max_visible` entries are then active, the oldest active ones are
    /// forced into slide-out, strictly in list order.
    pub fn enqueue(&mut self, notification: Notification, display_duration: u64, now: u64)
        ensures
            final(self).entries@ == spec_enqueue(
                old(self).entries@,
                notification,
                display_duration,
                now,
                old(self).max_visible as nat,
            ),
            final(self).max_visible == old(self).max_visible,
            final(self).animation_duration == old(self).animation_duration,
    {
        self.remove_entries_with_id(notification.id);
        self.entries.push(
            PopupEntry {
                notification,
                phase: PopupPhase::SlideIn,
                phase_started: now,
                display_duration,
            },
        );
        let ghost candidate = self.entries@;
        let mut active = self.count_active_entries();
        let ghost k: nat = 0;
        proof {
            lemma_force_oldest_zero(candidate, now);
        }
        while active > self.max_visible
            invariant
                k <= count_active(candidate),
                active == count_active(candidate) - k,
                active == count_active(self.entries@),
                self.entries@ =~= force_oldest(candidate, k, now),
                k == 0 || active >= self.max_visible,
                self.max_visible == old(self).max_visible,
                self.animation_duration == old(self).animation_duration,
            decreases active,
        {
            let j = self.find_first_active();
            let ghost before = self.entries@;
            proof {
                lemma_force_oldest_step(candidate, k, now, j as int);
            }
            self.entries[j].phase = PopupPhase::SlideOut;
            self.entries[j].phase_started = now;
            proof {
                assert(self.entries@ =~= before.update(
                    j as int,
                    slid_out(candidate[j as int], now),
                ));
                lemma_count_active_update_out(before, j as int, slid_out(
                    candidate[j as int],
                    now,
                ));
                k = k + 1;
            }
            active = active - 1;
        }
        proof {
            if k == 0 {
                assert(surplus_over(candidate, old(self).max_visible as nat) == 0);
            } else {
                assert(active == self.max_visible);
                assert(k == surplus_over(candidate, old(self).max_visible as nat));
            }
        }
    }

    /// Advance every entry's phase by the clock and drop entries whose
    /// slide-out has finished. Returns whether anything changed, so the
    /// host knows whether a redraw is warranted.
    pub fn tick(&mut self, now: u64) -> (changed: bool)
        ensures
            final(self).entries@ == spec_tick(
                old(self).entries@,
                old(self).animation_duration,
                now,
            ),
            changed == spec_tick_changed(old(self).entries@, old(self).animation_duration, now),
            final(self).max_visible == old(self).max_visible,
            final(self).animation_duration == old(self).animation_duration,
    {
        let ghost orig = self.entries@;
        let ghost anim_g = self.animation_duration;
        let anim = self.animation_duration;
        let mut changed = false;
        let mut i: usize = 0;
        while i < self.entries.len()
            invariant
                i <= orig.len(),
                self.entries@.len() == orig.len(),
                anim == anim_g,
                self.max_visible == old(self).max_visible,
                self.animation_duration == anim_g,
                anim_g == old(self).animation_duration,
                orig == old(self).entries@,
                forall|j: int|
                    0 <= j < i ==> self.entries@[j] == advance_entry(orig[j], anim_g, now),
                forall|j: int| i <= j < orig.len() ==> self.entries@[j] == orig[j],
                changed ==> exists|j: int|
                    0 <= j < i && advance_entry(#[trigger] orig[j], anim_g, now) != orig[j],
                !changed ==> forall|j: int|
                    0 <= j < i ==> advance_entry(#[trigger] orig[j], anim_g, now) == orig[j],
            decreases orig.len() - i,
        {
            let started = self.entries[i].phase_started;
            let elapsed = if now >= started {
                now - started
            } else {
                0
            };
            match self.entries[i].phase {
                PopupPhase::SlideIn => {
                    if elapsed >= anim {
                        self.entries[i].phase = PopupPhase::Display;
                        self.entries[i].phase_started = now;
                        changed = true;
                        proof {
                            assert(self.entries@[i as int] == advance_entry(
                                orig[i as int],
                                anim_g,
                                now,
                            ));
                            assert(advance_entry(orig[i as int], anim_g, now) != orig[i as int]);
                        }
                    }
                },
                PopupPhase::Display => {
                    if elapsed >= self.entries[i].display_duration {
                        self.entries[i].phase = PopupPhase::SlideOut;
                        self.entries[i].phase_started = now;
                        changed = true;
                        proof {
                            assert(self.entries@[i as int] == advance_entry(
                                orig[i as int],
                                anim_g,
                                now,
                            ));
                            assert(advance_entry(orig[i as int], anim_g, now) != orig[i as int]);
                        }
                    }
                },
                PopupPhase::SlideOut => {},
            }
            i = i + 1;
        }
        let ghost advanced = orig.map_values(|e: PopupEntry| advance_entry(e, anim_g, now));
        proof {
            assert(self.entries@ =~= advanced);
        }
        // Second pass: drop entries whose slide-out has completed.
        let len_before = self.entries.len();
        let mut r: usize = 0;
        let ghost j: int = 0;
        proof {
            assert(advanced.take(0) =~= Seq::<PopupEntry>::empty());
            assert(advanced.skip(0) =~= advanced);
            assert(self.entries@ =~= remove_finished(advanced.take(0), anim_g, now)
                + advanced.skip(0));
        }
        while r < self.entries.len()
            invariant
                0 <= j <= advanced.len(),
                anim == anim_g,
                self.entries@ =~= remove_finished(advanced.take(j), anim_g, now) + advanced.skip(
                    j,
                ),
                r == remove_finished(advanced.take(j), anim_g, now).len(),
                self.max_visible == old(self).max_visible,
                self.animation_duration == anim_g,
            decreases advanced.len() - j,
        {
            proof {
                lemma_remove_finished_take_step(advanced, anim_g, now, j);
                assert(advanced.skip(j).len() > 0);
                assert(self.entries@[r as int] == advanced.skip(j)[0]);
                assert(advanced.skip(j)[0] == advanced[j]);
                assert(advanced.skip(j).skip(1) =~= advanced.skip(j + 1));
            }
            let started = self.entries[r].phase_started;
            let elapsed = if now >= started {
                now - started
            } else {
                0
            };
            let done = matches!(self.entries[r].phase, PopupPhase::SlideOut) && elapsed >= anim;
            if done {
                self.entries.remove(r);
            } else {
                r = r + 1;
            }
            proof {
                assert(self.entries@ =~= remove_finished(advanced.take(j + 1), anim_g, now)
                    + advanced.skip(j + 1));
                j = j + 1;
            }
        }
        proof {
            assert(advanced.take(j) =~= advanced);
            assert(advanced.skip(j) =~= Seq::<PopupEntry>::empty());
            assert(remove_finished(advanced, anim_g, now) + Seq::<PopupEntry>::empty()
                =~= remove_finished(advanced, anim_g, now));
        }
        if self.entries.len() != len_before {
            changed = true;
            proof {
                lemma_remove_finished_len(advanced, anim_g, now);
                let w = choose|j: int|
                    0 <= j < advanced.len() && finished(#[trigger] advanced[j], anim_g, now);
                assert(finished(advance_entry(orig[w], anim_g, now), anim_g, now));
            }
        } else {
            proof {
                lemma_remove_finished_len(advanced, anim_g, now);
                assert forall|j: int| 0 <= j < orig.len() implies !finished(
                    advance_entry(#[trigger] orig[j], anim_g, now),
                    anim_g,
                    now,
                ) by {
                    assert(!finished(advanced[j], anim_g, now));
                }
            }
        }
        changed
    }

    /// The geometry progress of one entry, in millionths of full size.
    /// Driven by the no-overshoot cubic curves, so it never leaves
    /// `[0, PROGRESS_SCALE]`.
    pub fn entry_progress_at(&self, entry: &PopupEntry, now: u64) -> (r: i64)
        ensures
            r == spec_entry_progress(*entry, self.animation_duration, now),
            0 <= r <= PROGRESS_SCALE,
    {
        let started = entry.phase_started;
        let elapsed = if now >= started {
            now - started
        } else {
            0
        };
        match entry.phase {
            PopupPhase::SlideIn => {
                let t = norm_progress(elapsed, self.animation_duration);
                ease_out_cubic(t)
            },
            PopupPhase::Display => PROGRESS_SCALE,
            PopupPhase::SlideOut => {
                let t = norm_progress(elapsed, self.animation_duration);
                PROGRESS_SCALE - ease_in_cubic(t)
            },
        }
    }

    /// The visual reveal progress of one entry, in millionths: the
    /// slide-in is delayed 40 ms per list position and follows the
    /// ease-out-back curve, which intentionally overshoots.
    pub fn entry_progress_staggered_at(&self, entry: &PopupEntry, index: usize, now: u64) -> (r:
        i64)
        requires
            index <= 0x1000_0000,
        ensures
            r == spec_entry_progress_staggered(
                *entry,
                index as int,
                self.animation_duration,
                now,
            ),
    {
        let started = entry.phase_started;
        let elapsed = if now >= started {
            now - started
        } else {
            0
        };
        match entry.phase {
            PopupPhase::SlideIn => {
                let stagger = STAGGER_DELAY_MS * (index as u64);
                let effective = if elapsed > stagger {
                    elapsed - stagger
                } else {
                    0
                };
                let t = norm_progress(effective, self.animation_duration);
                ease_out_back(t)
            },
            PopupPhase::Display => PROGRESS_SCALE,
            PopupPhase::SlideOut => {
                let t = norm_progress(elapsed, self.animation_duration);
                PROGRESS_SCALE - ease_in_cubic(t)
            },
        }
    }

    /// The container's visibility, in millionths: the largest geometry
    /// progress over all entries, zero when none are left.
    pub fn bubble_progress_at(&self, now: u64) -> (r: i64)
        ensures
            r == spec_bubble_progress(self.entries@, self.animation_duration, now),
            0 <= r <= PROGRESS_SCALE,
    {
        let mut r: i64 = 0;
        let mut i: usize = 0;
        while i < self.entries.len()
            invariant
                i <= self.entries@.len(),
                r == spec_bubble_progress(
                    self.entries@.take(i as int),
                    self.animation_duration,
                    now,
                ),
                0 <= r <= PROGRESS_SCALE,
            decreases self.entries@.len() - i,
        {
            proof {
                assert(self.entries@.take(i + 1).drop_last() =~= self.entries@.take(i as int));
                assert(self.entries@.take(i + 1).last() == self.entries@[i as int]);
            }
            let p = self.entry_progress_at(&self.entries[i], now);
            if p > r {
                r = p;
            }
            i = i + 1;
        }
        proof {
            assert(self.entries@.take(self.entries@.len() as int) =~= self.entries@);
        }
        r
    }

    /// The stable surface height in millionths of a pixel. While any entry
    /// is active the height snaps to the full size for the active count,
    /// so the surface does not resize frame by frame; once every entry is
    /// sliding out it shrinks with the largest remaining progress; empty
    /// means zero.
    pub fn target_surface_height_at(&self, now: u64) -> (h: i64)
        requires
            self.entries@.len() <= 0x1000_0000,
        ensures
            h == spec_target_height(self.entries@, self.animation_duration, now),
            count_active(self.entries@) > 0 ==> h == (count_active(self.entries@) * ENTRY_HEIGHT
                + SURFACE_PADDING) * PROGRESS_SCALE,
            self.entries@.len() == 0 ==> h == 0,
    {
        let active = self.count_active_entries();
        proof {
            lemma_count_active_le_len(self.entries@);
        }
        if active > 0 {
            let base: i64 = (active as i64) * ENTRY_HEIGHT + SURFACE_PADDING;
            proof {
                lemma_height_bound(active as int);
            }
            base * PROGRESS_SCALE
        } else if self.entries.len() > 0 {
            let count = self.entries.len();
            let progress = self.bubble_progress_at(now);
            let base: i64 = (count as i64) * ENTRY_HEIGHT + SURFACE_PADDING;
            proof {
                lemma_height_bound(count as int);
                lemma_height_scale(base as int, progress as int);
            }
            base * progress
        } else {
            0
        }
    }

    /// Force the entry with this id into slide-out now. Dismissing an
    /// absent or already sliding-out id changes nothing, so repeating a
    /// dismissal has no further effect.
    pub fn dismiss(&mut self, id: u32, now: u64)
        ensures
            final(self).entries@ == spec_dismiss(old(self).entries@, id, now),
            final(self).max_visible == old(self).max_visible,
            final(self).animation_duration == old(self).animation_duration,
    {
        let ghost orig = self.entries@;
        let mut i: usize = 0;
        proof {
            assert(orig.skip(0) =~= orig);
        }
        while i < self.entries.len()
            invariant
                i <= orig.len(),
                self.entries@ == orig,
                self.max_visible == old(self).max_visible,
                self.animation_duration == old(self).animation_duration,
                orig == old(self).entries@,
                forall|m: int| 0 <= m < i ==> orig[m].notification.id != id,
                find_entry_id(orig, id) == (if find_entry_id(orig.skip(i as int), id) == -1 {
                    -1int
                } else {
                    find_entry_id(orig.skip(i as int), id) + i
                }),
            decreases orig.len() - i,
        {
            proof {
                assert(orig.skip(i as int)[0] == orig[i as int]);
                assert(orig.skip(i as int).skip(1) =~= orig.skip(i + 1));
            }
            if self.entries[i].notification.id == id {
                proof {
                    assert(find_entry_id(orig.skip(i as int), id) == 0);
                    assert(find_entry_id(orig, id) == i);
                }
                if !matches!(self.entries[i].phase, PopupPhase::SlideOut) {
                    self.entries[i].phase = PopupPhase::SlideOut;
                    self.entries[i].phase_started = now;
                    proof {
                        assert(self.entries@ =~= orig.update(
                            i as int,
                            slid_out(orig[i as int], now),
                        ));
                    }
                }
                return ;
            }
            proof {
                lemma_find_entry_id_spec(orig.skip(i + 1), id);
                assert(orig.skip(i as int).len() > 0 && orig.skip(i as int)[0].notification.id
                    != id);
                assert(find_entry_id(orig.skip(i as int), id) == (if find_entry_id(
                    orig.skip(i + 1),
                    id,
                ) == -1 {
                    -1int
                } else {
                    find_entry_id(orig.skip(i + 1), id) + 1
                }));
            }
            i = i + 1;
        }
        proof {
            assert(orig.skip(i as int).len() == 0);
            assert(find_entry_id(orig, id) == -1);
        }
    }
}

// ---------------------------------------------------------------------
// Laws of the engine.
// ---------------------------------------------------------------------

/// Eviction removes activity one entry at a time: forcing the `k` oldest
/// active entries leaves `count - k` active ones (never fewer than none).
proof fn lemma_force_oldest_count(s: Seq<PopupEntry>, k: nat, now: u64)
    ensures
        count_active(force_oldest(s, k, now)) == (if count_active(s) >= k {
            (count_active(s) - k) as nat
        } else {
            0nat
        }),
    decreases s.len(),
{
    if s.len() > 0 {
        lemma_force_oldest_count(s.drop_last(), k, now);
        let f = force_oldest(s, k, now);
        assert forall|j: int| 0 <= j < s.len() - 1 implies f.drop_last()[j] == force_oldest(
            s.drop_last(),
            k,
            now,
        )[j] by {
            assert(s.drop_last().take(j) =~= s.take(j));
            assert(s.drop_last()[j] == s[j]);
        }
        assert(f.drop_last() =~= force_oldest(s.drop_last(), k, now));
        assert(f.last() == f[s.len() - 1]);
        assert(s.take(s.len() - 1) =~= s.drop_last());
    }
}

/// Enqueuing keeps the active count at the cap: after an enqueue at most
/// `max_visible` entries are active, unless the queue was already within
/// the cap, in which case only the new entry adds to it. Together with
/// [`lemma_force_oldest_shape`], eviction touches exactly the oldest
/// surplus of active entries, in list order, and nothing else.
pub proof fn lemma_enqueue_respects_cap(
    s: Seq<PopupEntry>,
    n: Notification,
    duration: u64,
    now: u64,
    max_visible: nat,
)
    ensures
        count_active(spec_enqueue(s, n, duration, now, max_visible)) == (if count_active(
            enqueue_candidate(s, n, duration, now),
        ) > max_visible {
            max_visible
        } else {
            count_active(enqueue_candidate(s, n, duration, now))
        }),
        count_active(spec_enqueue(s, n, duration, now, max_visible)) <= max_visible
            || count_active(spec_enqueue(s, n, duration, now, max_visible)) == count_active(
            enqueue_candidate(s, n, duration, now),
        ),
{
    let candidate = enqueue_candidate(s, n, duration, now);
    lemma_force_oldest_count(candidate, surplus_over(candidate, max_visible), now);
}

/// Searching for an id is blind to phases: updating an entry without
/// changing its id leaves the search result alone.
proof fn lemma_find_entry_id_same_ids(s1: Seq<PopupEntry>, s2: Seq<PopupEntry>, id: u32)
    requires
        s1.len() == s2.len(),
        forall|m: int|
            0 <= m < s1.len() ==> (#[trigger] s1[m]).notification.id == s2[m].notification.id,
    ensures
        find_entry_id(s1, id) == find_entry_id(s2, id),
    decreases s1.len(),
{
    if s1.len() > 0 && s1[0].notification.id != id {
        lemma_find_entry_id_same_ids(s1.skip(1), s2.skip(1), id);
        assert(forall|m: int| 0 <= m < s1.skip(1).len() ==> s1.skip(1)[m] == s1[m + 1]);
        assert(forall|m: int| 0 <= m < s2.skip(1).len() ==> s2.skip(1)[m] == s2[m + 1]);
    }
}

/// Everything that survives removal by id was already in the list.
proof fn lemma_remove_entry_id_contains(s: Seq<PopupEntry>, id: u32)
    ensures
        forall|m: int|
            0 <= m < remove_entry_id(s, id).len() ==> s.contains(
                #[trigger] remove_entry_id(s, id)[m],
            ),
    decreases s.len(),
{
    if s.len() > 0 {
        lemma_remove_entry_id_contains(s.drop_last(), id);
        assert forall|m: int| 0 <= m < remove_entry_id(s.drop_last(), id).len() implies
            s.contains(#[trigger] remove_entry_id(s.drop_last(), id)[m]) by {
            let x = remove_entry_id(s.drop_last(), id)[m];
            let w = choose|w: int| 0 <= w < s.drop_last().len() && s.drop_last()[w] == x;
            assert(s[w] == x);
        }
        if s.last().notification.id != id {
            assert(s[s.len() - 1] == s.last());
        }
    }
}

/// Removal by id keeps ids unique.
proof fn lemma_remove_entry_id_unique(s: Seq<PopupEntry>, id: u32)
    requires
        entry_ids_unique(s),
    ensures
        entry_ids_unique(remove_entry_id(s, id)),
    decreases s.len(),
{
    if s.len() > 0 {
        assert(forall|m: int| 0 <= m < s.drop_last().len() ==> s.drop_last()[m] == s[m]);
        lemma_remove_entry_id_unique(s.drop_last(), id);
        lemma_remove_entry_id_contains(s.drop_last(), id);
        if s.last().notification.id != id {
            let r = remove_entry_id(s.drop_last(), id);
            assert forall|m: int| 0 <= m < r.len() implies r[m].notification.id
                != s.last().notification.id by {
                let x = r[m];
                assert(s.drop_last().contains(x));
                let w = choose|w: int| 0 <= w < s.drop_last().len() && s.drop_last()[w] == x;
                assert(s[w] == x && s[s.len() - 1] == s.last());
            }
        }
    }
}

/// Everything that survives the removal of finished entries was already in
/// the list, and ids stay unique.
proof fn lemma_remove_finished_unique(s: Seq<PopupEntry>, anim: u64, now: u64)
    requires
        entry_ids_unique(s),
    ensures
        entry_ids_unique(remove_finished(s, anim, now)),
        forall|m: int|
            0 <= m < remove_finished(s, anim, now).len() ==> s.contains(
                #[trigger] remove_finished(s, anim, now)[m],
            ),
    decreases s.len(),
{
    if s.len() > 0 {
        assert(forall|m: int| 0 <= m < s.drop_last().len() ==> s.drop_last()[m] == s[m]);
        lemma_remove_finished_unique(s.drop_last(), anim, now);
        assert forall|m: int| 0 <= m < remove_finished(s.drop_last(), anim, now).len() implies
            s.contains(#[trigger] remove_finished(s.drop_last(), anim, now)[m]) by {
            let x = remove_finished(s.drop_last(), anim, now)[m];
            let w = choose|w: int| 0 <= w < s.drop_last().len() && s.drop_last()[w] == x;
            assert(s[w] == x);
        }
        if !finished(s.last(), anim, now) {
            let r = remove_finished(s.drop_last(), anim, now);
            assert forall|m: int| 0 <= m < r.len() implies r[m].notification.id
                != s.last().notification.id by {
                let x = r[m];
                assert(s.drop_last().contains(x));
                let w = choose|w: int| 0 <= w < s.drop_last().len() && s.drop_last()[w] == x;
                assert(s[w] == x && s[s.len() - 1] == s.last());
            }
            assert(s[s.len() - 1] == s.last());
        }
    }
}

/// Uniqueness of ids is an invariant of the engine: a list with at most
/// one entry per id keeps that shape under enqueue (which replaces its
/// id first), under tick (which only advances and drops entries), and
/// under dismiss (which only changes one entry's phase).
pub proof fn lemma_engine_keeps_ids_unique(
    s: Seq<PopupEntry>,
    n: Notification,
    duration: u64,
    now: u64,
    max_visible: nat,
    id: u32,
    anim: u64,
)
    requires
        entry_ids_unique(s),
    ensures
        entry_ids_unique(spec_enqueue(s, n, duration, now, max_visible)),
        entry_ids_unique(spec_tick(s, anim, now)),
        entry_ids_unique(spec_dismiss(s, id, now)),
{
    // Enqueue: removal keeps uniqueness and clears the new id, the push
    // adds the one entry with that id, and eviction only changes phases.
    lemma_remove_entry_id_unique(s, n.id);
    lemma_remove_entry_id_clean(s, n.id);
    let candidate = enqueue_candidate(s, n, duration, now);
    let without = remove_entry_id(s, n.id);
    assert(forall|m: int| 0 <= m < without.len() ==> candidate[m] == without[m]);
    assert(entry_ids_unique(candidate));
    let forced = spec_enqueue(s, n, duration, now, max_visible);
    lemma_force_oldest_shape(candidate, surplus_over(candidate, max_visible), now);
    assert forall|i: int, j: int| 0 <= i < j < forced.len() implies forced[i].notification.id
        != forced[j].notification.id by {
        assert(forced[i].notification == candidate[i].notification);
        assert(forced[j].notification == candidate[j].notification);
    }
    // Tick: advancing keeps each entry's notification, and the removal
    // pass keeps a subsequence.
    let advanced = s.map_values(|e: PopupEntry| advance_entry(e, anim, now));
    assert forall|i: int, j: int| 0 <= i < j < advanced.len() implies advanced[i].notification.id
        != advanced[j].notification.id by {
        assert(advanced[i].notification == s[i].notification);
        assert(advanced[j].notification == s[j].notification);
    }
    lemma_remove_finished_unique(advanced, anim, now);
    // Dismiss: at most one entry changes, and only its phase.
    lemma_find_entry_id_spec(s, id);
    let dismissed = spec_dismiss(s, id, now);
    assert forall|i: int, j: int| 0 <= i < j < dismissed.len() implies
        dismissed[i].notification.id != dismissed[j].notification.id by {
        assert(dismissed[i].notification == s[i].notification);
        assert(dismissed[j].notification == s[j].notification);
    }
}

/// Dismissing is idempotent: a second dismissal of the same id, at any
/// later (or earlier) clock, changes nothing, because the entry already
/// slides out. Dismissing an absent id never changes anything.
pub proof fn lemma_dismiss_idempotent(s: Seq<PopupEntry>, id: u32, t1: u64, t2: u64)
    ensures
        spec_dismiss(spec_dismiss(s, id, t1), id, t2) == spec_dismiss(s, id, t1),
        find_entry_id(s, id) == -1 ==> spec_dismiss(s, id, t1) == s,
{
    lemma_find_entry_id_spec(s, id);
    let j = find_entry_id(s, id);
    if j >= 0 && !is_sliding_out(s[j]) {
        let s1 = s.update(j, slid_out(s[j], t1));
        lemma_find_entry_id_same_ids(s1, s, id);
        assert(is_sliding_out(s1[j]));
    }
}

} // verus!
