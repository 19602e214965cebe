use vstd::prelude::*;

use crate::config::{GROUP_COUNT, MIN_KEYS};
use crate::config::rows_before;
use crate::config::ConfigView;
use crate::keyboard::{
    deadline, display_colors, texts_of, AppView, ScanState, CLEAR_DELAY_MS, MAX_KEYS,
};
use crate::matching::{
    lemma_colors_verdict, lemma_complete_means_prefix, lemma_row_colors_closed_form, mismatched,
    row_complete, Color,
};
use crate::token::{Key, Token};

verus! {

proof fn lemma_scan_group_keeps_timer(v: AppView, s: ScanState, g: int, i: int, now: u64)
    requires
        s.launch is Some ==> s.timer is Some,
    ensures
        v.scan_group(s, g, i, now).launch is Some ==> v.scan_group(s, g, i, now).timer is Some,
        s.timer is Some ==> v.scan_group(s, g, i, now).timer == s.timer && v.scan_group(
            s,
            g,
            i,
            now,
        ).launch == s.launch && v.scan_group(s, g, i, now).target == s.target,
    decreases v.config.groups[g].names.len() - i,
{
    if 0 <= i < v.config.groups[g].names.len() {
        lemma_scan_group_keeps_timer(v, v.scan_row(s, g, i, now), g, i + 1, now);
    }
}

proof fn lemma_scan_groups_keeps_timer(v: AppView, s: ScanState, g: int, now: u64)
    requires
        s.launch is Some ==> s.timer is Some,
    ensures
        v.scan_groups(s, g, now).launch is Some ==> v.scan_groups(s, g, now).timer is Some,
        s.timer is Some ==> v.scan_groups(s, g, now).timer == s.timer && v.scan_groups(
            s,
            g,
            now,
        ).launch == s.launch && v.scan_groups(s, g, now).target == s.target,
    decreases GROUP_COUNT - g,
{
    if 0 <= g < GROUP_COUNT {
        lemma_scan_group_keeps_timer(v, s, g, 0, now);
        lemma_scan_groups_keeps_timer(v, v.scan_group(s, g, 0, now), g + 1, now);
    }
}

/// An entry is launched at most once per timer period: a scan launches
/// nothing while the timer runs, a scan that launches leaves the timer
/// running, and so the scan after it launches nothing.
pub proof fn lemma_launch_once(v: AppView, now: u64, later: u64)
    ensures
        v.log_timer is Some ==> v.scan(now).launch is None,
        v.scan(now).launch is Some ==> v.after_scan(now).log_timer is Some,
        v.scan(now).launch is Some ==> v.after_scan(now).scan(later).launch is None,
{
    let s0 = ScanState { timer: v.log_timer, target: v.delete_target, launch: None, gray: 0 };
    lemma_scan_groups_keeps_timer(v, s0, 0, now);
    let w = v.after_scan(now);
    let s1 = ScanState { timer: w.log_timer, target: w.delete_target, launch: None, gray: 0 };
    lemma_scan_groups_keeps_timer(w, s1, 0, later);
}

/// The keys that add the entry are the keys that select it: after an entry
/// is added from the typed tokens to a group whose columns hold one element
/// per entry, typing the same tokens selects the new entry.
pub proof fn lemma_added_entry_selected(v: AppView)
    requires
        v.config.wf(),
        v.add_in,
        v.entry_fields_ok(),
        v.log.contains(Token::Add),
        MIN_KEYS <= v.log.len() - 1 <= MAX_KEYS,
        v.config.groups[v.log.len() - 1 - MIN_KEYS].uniform(),
    ensures
        ({
            let typed = v.log.drop_last();
            let g = typed.len() - MIN_KEYS;
            let added = v.after_add().0;
            row_complete(typed, added.keys_of(g, v.config.groups[g].names.len() as int))
        }),
{
    let typed = v.log.drop_last();
    let n = typed.len();
    let g = n - MIN_KEYS;
    let grp = v.config.groups[g];
    let row = grp.names.len() as int;
    let added = v.after_add().0;
    assert(added.config == v.config.add_entry(g, texts_of(typed), v.name, v.path, v.mode));
    let keys = added.keys_of(g, row);
    assert(grp.keys.len() == n);
    assert forall|k: int| 0 <= k < keys.len() implies #[trigger] typed[k].text() == keys[k] by {
        assert(grp.keys[k].len() == row);
        assert(added.config.groups[g].keys[k] == grp.keys[k].push(texts_of(typed)[k]));
    }
    lemma_complete_means_prefix(typed, keys);
}

/// Esc closes the window; Delete as the first token enters delete mode with
/// no tokens typed; Tab leaves add and delete mode, drops the warning and
/// clears the tokens; Enter outside add mode enters add mode with no tokens.
pub proof fn lemma_mode_keys(v: AppView)
    ensures
        !v.after_key(Key::Escape).open,
        v.log.len() == 0 ==> v.after_key(Key::Delete).delete_mode && v.after_key(
            Key::Delete,
        ).log.len() == 0,
        !v.after_key(Key::Tab).add_in && !v.after_key(Key::Tab).delete_mode && !v.after_key(
            Key::Tab,
        ).warn && v.after_key(Key::Tab).log.len() == 0,
        !v.add_in ==> v.after_key(Key::Enter).after_add().0.add_in && v.after_key(
            Key::Enter,
        ).after_add().0.log.len() == 0,
{
    let e = v.after_key(Key::Enter);
    assert(e.log[e.log.len() - 1] == Token::Add);
}

/// The typed tokens are cleared one delay after every entry is ruled out:
/// when a frame ends with every entry ruled out, no timer running and
/// outside add mode, a frame that ends one delay later or after clears them.
pub proof fn lemma_clear_after_delay(v: AppView, now: u64, later: u64, gray: nat)
    requires
        v.log_timer is None,
        !v.add_in,
        now + CLEAR_DELAY_MS <= u64::MAX,
        later >= now + CLEAR_DELAY_MS,
    ensures
        v.after_frame_end(v.max_input_len, now).log_timer == Some(deadline(now)),
        v.after_frame_end(v.max_input_len, now).after_frame_end(gray, later).log.len() == 0,
        v.after_frame_end(v.max_input_len, now).after_frame_end(gray, later).log_timer is None,
{
}

/// The typed sequence selects entry `i` of group `g`.
pub open spec fn selects(v: AppView, g: int, i: int) -> bool {
    &&& 0 <= g < GROUP_COUNT
    &&& 0 <= i < v.config.groups[g].names.len()
    &&& row_complete(v.log, v.keys_of(g, i))
}

/// Entry `(g1, i1)` comes before entry `(g2, i2)` in group order.
pub open spec fn comes_before(g1: int, i1: int, g2: int, i2: int) -> bool {
    g1 < g2 || (g1 == g2 && i1 < i2)
}

proof fn lemma_scan_group_first(v: AppView, s: ScanState, g: int, i: int, now: u64)
    requires
        v.config.wf(),
        0 <= g < GROUP_COUNT,
        0 <= i,
        s.timer is None,
        s.launch is None,
        !v.add_in,
        !v.delete_mode,
    ensures
        ({
            let r = v.scan_group(s, g, i, now);
            &&& r.launch is None <==> (forall|j: int| i <= j ==> !#[trigger] selects(v, g, j))
            &&& r.launch is None ==> r.timer is None
            &&& r.launch is Some ==> r.timer == Some(deadline(now))
            &&& r.target == s.target
            &&& r.launch matches Some(p) ==> p.0 == g && i <= p.1 && selects(v, g, p.1 as int)
                && forall|j: int| i <= j < p.1 ==> !#[trigger] selects(v, g, j)
        }),
    decreases v.config.groups[g].names.len() - i,
{
    let n = v.config.groups[g].names.len();
    crate::config::lemma_rows_before_monotone(v.config.groups, g + 1, GROUP_COUNT as int);
    crate::config::lemma_rows_before_monotone(v.config.groups, g, g + 1);
    if i < n {
        let s1 = v.scan_row(s, g, i, now);
        if selects(v, g, i) {
            lemma_scan_group_keeps_timer(v, s1, g, i + 1, now);
        } else {
            lemma_scan_group_first(v, s1, g, i + 1, now);
            assert forall|j: int| i <= j && selects(v, g, j) implies j >= i + 1 by {}
        }
    }
}

proof fn lemma_scan_groups_first(v: AppView, s: ScanState, g: int, now: u64)
    requires
        v.config.wf(),
        0 <= g <= GROUP_COUNT,
        s.timer is None,
        s.launch is None,
        !v.add_in,
        !v.delete_mode,
    ensures
        ({
            let r = v.scan_groups(s, g, now);
            &&& r.launch is None <==> (forall|h: int, j: int| g <= h ==> !#[trigger] selects(v, h, j))
            &&& r.launch is None ==> r.timer is None
            &&& r.launch is Some ==> r.timer == Some(deadline(now))
            &&& r.target == s.target
            &&& r.launch matches Some(p) ==> g <= p.0 && selects(v, p.0 as int, p.1 as int)
                && forall|h: int, j: int|
                comes_before(h, j, p.0 as int, p.1 as int) && g <= h ==> !#[trigger] selects(v, h, j)
        }),
    decreases GROUP_COUNT - g,
{
    if g < GROUP_COUNT {
        lemma_scan_group_first(v, s, g, 0, now);
        let s1 = v.scan_group(s, g, 0, now);
        if s1.launch is None {
            lemma_scan_groups_first(v, s1, g + 1, now);
            assert forall|h: int, j: int| g <= h && #[trigger] selects(v, h, j) implies h >= g + 1 by {
                if h == g {
                    assert(0 <= j);
                }
            }
        } else {
            lemma_scan_groups_keeps_timer(v, s1, g + 1, now);
            let p = s1.launch->0;
            assert forall|h: int, j: int|
                comes_before(h, j, p.0 as int, p.1 as int) && g <= h implies !#[trigger] selects(
                v,
                h,
                j,
            ) by {
                if h == g && selects(v, h, j) {
                    assert(0 <= j);
                }
            }
        }
    }
}

/// A scan that starts with no timer running, outside add and delete mode,
/// launches the first entry in group order that the typed sequence selects,
/// and launches nothing exactly when the sequence selects no entry.
pub proof fn lemma_launch_first_selected(v: AppView, now: u64)
    requires
        v.config.wf(),
        v.log_timer is None,
        !v.add_in,
        !v.delete_mode,
    ensures
        v.scan(now).launch is None <==> (forall|g: int, i: int| !#[trigger] selects(v, g, i)),
        v.scan(now).launch is None ==> v.after_scan(now).log_timer is None,
        v.scan(now).launch is Some ==> v.after_scan(now).log_timer == Some(deadline(now)),
        v.after_scan(now).delete_target == v.delete_target,
        v.scan(now).launch matches Some(p) ==> selects(v, p.0 as int, p.1 as int) && forall|
            g: int,
            i: int,
        | comes_before(g, i, p.0 as int, p.1 as int) ==> !#[trigger] selects(v, g, i),
{
    let s0 = ScanState { timer: v.log_timer, target: v.delete_target, launch: None, gray: 0 };
    lemma_scan_groups_first(v, s0, 0, now);
    assert forall|g: int, i: int| #[trigger] selects(v, g, i) implies 0 <= g by {}
}

/// The global index of entry `i` of group `g`: entries numbered across the
/// groups in order.
pub open spec fn global_index(v: AppView, g: int, i: int) -> usize {
    (rows_before(v.config.groups, g) + i) as usize
}

proof fn lemma_scan_group_marks_last(v: AppView, s: ScanState, g: int, i: int, now: u64)
    requires
        v.config.wf(),
        0 <= g < GROUP_COUNT,
        0 <= i,
        s.timer is None,
        s.launch is None,
        !v.add_in,
        v.delete_mode,
    ensures
        ({
            let r = v.scan_group(s, g, i, now);
            &&& r.timer is None
            &&& r.launch is None
            &&& (forall|j: int| i <= j ==> !#[trigger] selects(v, g, j)) ==> r.target == s.target
            &&& (exists|j: int| i <= j && #[trigger] selects(v, g, j)) ==> exists|j: int|
                i <= j && #[trigger] selects(v, g, j) && r.target == Some(global_index(v, g, j))
                    && forall|k: int| j < k ==> !#[trigger] selects(v, g, k)
        }),
    decreases v.config.groups[g].names.len() - i,
{
    let n = v.config.groups[g].names.len();
    if i < n {
        let s1 = v.scan_row(s, g, i, now);
        lemma_scan_group_marks_last(v, s1, g, i + 1, now);
        let r = v.scan_group(s, g, i, now);
        if exists|j: int| i + 1 <= j && #[trigger] selects(v, g, j) {
            let j = choose|j: int|
                i + 1 <= j && #[trigger] selects(v, g, j) && r.target == Some(global_index(v, g, j))
                    && forall|k: int| j < k ==> !#[trigger] selects(v, g, k);
            assert(i <= j && selects(v, g, j));
        } else if selects(v, g, i) {
            assert(r.target == Some(global_index(v, g, i)));
            assert forall|k: int| i < k implies !#[trigger] selects(v, g, k) by {
                assert(i + 1 <= k);
            }
        } else {
            assert forall|j: int| i <= j implies !#[trigger] selects(v, g, j) by {
                if j != i {
                    assert(i + 1 <= j);
                }
            }
        }
    } else {
        assert forall|j: int| i <= j implies !#[trigger] selects(v, g, j) by {}
    }
}

proof fn lemma_scan_groups_marks_last(v: AppView, s: ScanState, g: int, now: u64)
    requires
        v.config.wf(),
        0 <= g <= GROUP_COUNT,
        s.timer is None,
        s.launch is None,
        !v.add_in,
        v.delete_mode,
    ensures
        ({
            let r = v.scan_groups(s, g, now);
            &&& r.timer is None
            &&& r.launch is None
            &&& (forall|h: int, j: int| g <= h ==> !#[trigger] selects(v, h, j)) ==> r.target == s.target
            &&& (exists|h: int, j: int| g <= h && #[trigger] selects(v, h, j)) ==> exists|h: int, j: int|
                g <= h && #[trigger] selects(v, h, j) && r.target == Some(global_index(v, h, j))
                    && forall|h2: int, k: int|
                    comes_before(h, j, h2, k) ==> !#[trigger] selects(v, h2, k)
        }),
    decreases GROUP_COUNT - g,
{
    if g < GROUP_COUNT {
        lemma_scan_group_marks_last(v, s, g, 0, now);
        let s1 = v.scan_group(s, g, 0, now);
        lemma_scan_groups_marks_last(v, s1, g + 1, now);
        let r = v.scan_groups(s, g, now);
        if exists|h: int, j: int| g + 1 <= h && #[trigger] selects(v, h, j) {
            let (h, j) = choose|h: int, j: int|
                g + 1 <= h && #[trigger] selects(v, h, j) && r.target == Some(global_index(v, h, j))
                    && forall|h2: int, k: int|
                    comes_before(h, j, h2, k) ==> !#[trigger] selects(v, h2, k);
            assert(g <= h && selects(v, h, j));
        } else if exists|j: int| 0 <= j && #[trigger] selects(v, g, j) {
            let j = choose|j: int|
                0 <= j && #[trigger] selects(v, g, j) && s1.target == Some(global_index(v, g, j))
                    && forall|k: int| j < k ==> !#[trigger] selects(v, g, k);
            assert forall|h2: int, k: int| comes_before(g, j, h2, k) implies !#[trigger] selects(
                v,
                h2,
                k,
            ) by {
                if h2 > g && selects(v, h2, k) {
                    assert(g + 1 <= h2);
                }
            }
            assert(selects(v, g, j) && r.target == Some(global_index(v, g, j)));
        } else {
            assert forall|h: int, j: int| g <= h implies !#[trigger] selects(v, h, j) by {
                if h == g && selects(v, h, j) {
                    assert(0 <= j);
                }
                if h > g && selects(v, h, j) {
                    assert(g + 1 <= h);
                }
            }
        }
    }
}

/// A scan in delete mode that starts with no timer running, outside add
/// mode, launches nothing and starts no timer; it marks the last entry in
/// group order that the typed sequence selects, by its global index, and
/// keeps the earlier mark when the sequence selects no entry.
pub proof fn lemma_delete_marks_last_selected(v: AppView, now: u64)
    requires
        v.config.wf(),
        v.log_timer is None,
        !v.add_in,
        v.delete_mode,
    ensures
        v.scan(now).launch is None,
        v.scan(now).timer is None,
        (forall|g: int, i: int| !#[trigger] selects(v, g, i)) ==> v.scan(now).target == v.delete_target,
        (exists|g: int, i: int| #[trigger] selects(v, g, i)) ==> exists|g: int, i: int|
            #[trigger] selects(v, g, i) && v.scan(now).target == Some(global_index(v, g, i)) && forall|
                g2: int,
                i2: int,
            | comes_before(g, i, g2, i2) ==> !#[trigger] selects(v, g2, i2),
{
    let s0 = ScanState { timer: v.log_timer, target: v.delete_target, launch: None, gray: 0 };
    lemma_scan_groups_marks_last(v, s0, 0, now);
    if exists|g: int, i: int| #[trigger] selects(v, g, i) {
        let (g, i) = choose|g: int, i: int| #[trigger] selects(v, g, i);
        assert(0 <= g && selects(v, g, i));
    }
}

/// The typed sequence rules out entry `i` of group `g`: it has a token that
/// differs from the entry's key at that position.
pub open spec fn rules_out(v: AppView, g: int, i: int) -> bool {
    mismatched(v.log, v.keys_of(g, i), v.keys_of(g, i).len())
}

proof fn lemma_scan_group_all_ruled_out(v: AppView, s: ScanState, g: int, i: int, now: u64)
    requires
        0 <= g < GROUP_COUNT,
        0 <= i <= v.config.groups[g].names.len(),
        forall|j: int| i <= j < v.config.groups[g].names.len() ==> #[trigger] rules_out(v, g, j),
    ensures
        v.scan_group(s, g, i, now) == (ScanState {
            gray: s.gray + (v.config.groups[g].names.len() - i) as nat,
            ..s
        }),
    decreases v.config.groups[g].names.len() - i,
{
    if i < v.config.groups[g].names.len() {
        assert(rules_out(v, g, i));
        let s1 = v.scan_row(s, g, i, now);
        assert(s1 == (ScanState { gray: s.gray + 1, ..s }));
        lemma_scan_group_all_ruled_out(v, s1, g, i + 1, now);
    }
}

proof fn lemma_scan_groups_all_ruled_out(v: AppView, s: ScanState, g: int, now: u64)
    requires
        v.config.wf(),
        0 <= g <= GROUP_COUNT,
        forall|h: int, j: int|
            g <= h < GROUP_COUNT && 0 <= j < v.config.groups[h].names.len() ==> #[trigger] rules_out(
                v,
                h,
                j,
            ),
    ensures
        v.scan_groups(s, g, now) == (ScanState {
            gray: s.gray + (v.config.total_rows() - rows_before(v.config.groups, g)) as nat,
            ..s
        }),
    decreases GROUP_COUNT - g,
{
    if g < GROUP_COUNT {
        lemma_scan_group_all_ruled_out(v, s, g, 0, now);
        crate::config::lemma_rows_before_monotone(v.config.groups, g + 1, GROUP_COUNT as int);
        lemma_scan_groups_all_ruled_out(v, v.scan_group(s, g, 0, now), g + 1, now);
    }
}

/// A scan that rules out every entry counts every entry as ruled out and
/// changes nothing else; when the state still counts all entries, no timer
/// runs and add mode is off, the frame end starts the timer, and a frame that
/// ends one delay later or after clears the typed tokens and stops the timer.
pub proof fn lemma_all_ruled_out_clears(v: AppView, now: u64, later: u64, gray: nat)
    requires
        v.config.wf(),
        forall|g: int, i: int|
            0 <= g < GROUP_COUNT && 0 <= i < v.config.groups[g].names.len() ==> #[trigger] rules_out(
                v,
                g,
                i,
            ),
    ensures
        v.scan(now).gray == v.config.total_rows(),
        v.after_scan(now) == v,
        v.scan(now).launch is None,
        (v.max_input_len == v.config.total_rows() && v.log_timer is None && !v.add_in && now
            + CLEAR_DELAY_MS <= u64::MAX && later >= now + CLEAR_DELAY_MS) ==> {
            let w = v.after_scan(now).after_frame_end(v.scan(now).gray, now);
            &&& w.log_timer == Some(deadline(now))
            &&& w.after_frame_end(gray, later).log.len() == 0
            &&& w.after_frame_end(gray, later).log_timer is None
        },
{
    let s0 = ScanState { timer: v.log_timer, target: v.delete_target, launch: None, gray: 0 };
    lemma_scan_groups_all_ruled_out(v, s0, 0, now);
    assert(v.after_scan(now) =~= v);
}

/// The timer blocks launches until it clears the typed tokens: while it
/// runs, a scan launches nothing; key presses, Enter handling, scans and the
/// deletion and terminal dialogs leave it running; and a frame end that
/// stops it clears the typed tokens.
pub proof fn lemma_timer_blocks_until_clear(v: AppView, key: Key, now: u64, gray: nat)
    requires
        v.log_timer is Some,
    ensures
        v.scan(now).launch is None,
        v.after_key(key).log_timer == v.log_timer,
        v.after_add().0.log_timer == v.log_timer,
        v.after_scan(now).log_timer == v.log_timer,
        v.after_confirm_delete().0.log_timer == v.log_timer,
        v.after_cancel_delete().log_timer == v.log_timer,
        v.after_confirm_shell().log_timer == v.log_timer,
        v.after_frame_end(gray, now).log_timer is None ==> v.after_frame_end(gray, now).log.len() == 0,
{
    let s0 = ScanState { timer: v.log_timer, target: v.delete_target, launch: None, gray: 0 };
    lemma_scan_groups_keeps_timer(v, s0, 0, now);
}

/// When every column of every group holds one element per entry, every step
/// keeps it so: adding and deleting entries change every column of one group
/// by one element.
pub proof fn lemma_steps_keep_uniform(v: AppView, key: Key, now: u64, gray: nat)
    requires
        v.config.wf(),
        v.config.uniform(),
    ensures
        v.after_key(key).config.uniform(),
        v.after_add().0.config.uniform(),
        v.after_scan(now).config.uniform(),
        v.after_frame_end(gray, now).config.uniform(),
        v.delete_fits(),
        v.after_confirm_delete().0.config.uniform(),
        v.after_cancel_delete().config.uniform(),
        v.after_confirm_shell().config.uniform(),
{
    if v.log.contains(Token::Add) && v.add_in && v.entry_fields_ok() {
        let log = v.log.drop_last();
        let n = log.len();
        if MIN_KEYS <= n <= MAX_KEYS {
            assert(v.config.groups[n - MIN_KEYS].keys.len() == n);
            crate::config::lemma_add_entry_uniform(
                v.config,
                n - MIN_KEYS,
                texts_of(log),
                v.name,
                v.path,
                v.mode,
            );
        }
    }
    if let Some(t) = v.delete_target {
        crate::config::lemma_group_of_index(v.config.groups, t as int, 0);
        if let Some(g) = crate::config::group_of_index(v.config.groups, t as int, 0) {
            crate::config::lemma_remove_entry_uniform(v.config, g, v.local_index(g, t as int));
        }
    }
    let c = v.after_confirm_shell().config;
    assert forall|g: int| 0 <= g < c.groups.len() implies (#[trigger] c.groups[g]).uniform() by {
        assert(v.config.groups[g].uniform());
    }
}

/// Confirming the deletion of a marked entry takes exactly that entry out
/// of its group and asks for the restart.
pub proof fn lemma_confirm_removes_marked_entry(v: AppView, g: int, i: int)
    requires
        v.config.wf(),
        0 <= g < GROUP_COUNT,
        0 <= i < v.config.groups[g].names.len(),
        v.delete_target == Some(global_index(v, g, i)),
    ensures
        v.after_confirm_delete() == ((
            AppView {
                config: v.config.remove_entry(g, i),
                delete_mode: false,
                delete_target: None,
                ..v
            },
            true,
        )),
{
    crate::config::lemma_rows_before_monotone(v.config.groups, g + 1, GROUP_COUNT as int);
    crate::config::lemma_rows_before_monotone(v.config.groups, g, g + 1);
    crate::config::lemma_group_of_entry(v.config.groups, g, i);
}

/// The number of entries of group `g`, from entry `i` on, that the typed
/// sequence rules out.
pub open spec fn ruled_out_in_group(v: AppView, g: int, i: int) -> nat
    decreases v.config.groups[g].names.len() - i,
{
    if i < 0 || i >= v.config.groups[g].names.len() {
        0
    } else {
        (if rules_out(v, g, i) {
            1nat
        } else {
            0nat
        }) + ruled_out_in_group(v, g, i + 1)
    }
}

/// The number of entries of the groups from group `g` on that the typed
/// sequence rules out.
pub open spec fn ruled_out_from(v: AppView, g: int) -> nat
    decreases GROUP_COUNT - g,
{
    if g < 0 || g >= GROUP_COUNT {
        0
    } else {
        ruled_out_in_group(v, g, 0) + ruled_out_from(v, g + 1)
    }
}

proof fn lemma_scan_group_counts(v: AppView, s: ScanState, g: int, i: int, now: u64)
    requires
        0 <= i,
    ensures
        v.scan_group(s, g, i, now).gray == s.gray + ruled_out_in_group(v, g, i),
    decreases v.config.groups[g].names.len() - i,
{
    if i < v.config.groups[g].names.len() {
        let keys = v.keys_of(g, i);
        crate::matching::lemma_matched_prefix_bound(v.log, keys, keys.len());
        lemma_scan_group_counts(v, v.scan_row(s, g, i, now), g, i + 1, now);
    }
}

proof fn lemma_scan_groups_counts(v: AppView, s: ScanState, g: int, now: u64)
    requires
        0 <= g,
    ensures
        v.scan_groups(s, g, now).gray == s.gray + ruled_out_from(v, g),
    decreases GROUP_COUNT - g,
{
    if g < GROUP_COUNT {
        lemma_scan_group_counts(v, s, g, 0, now);
        lemma_scan_groups_counts(v, v.scan_group(s, g, 0, now), g + 1, now);
    }
}

/// The number of ruled-out entries a scan reports is the number of entries
/// whose typed tokens contradict one of their keys, which are exactly the
/// entries shown with a grey name; an entry that the typed tokens have only
/// begun, or that they select, is not counted.
pub proof fn lemma_scan_counts_ruled_out(v: AppView, now: u64, g: int, i: int)
    requires
        v.config.wf(),
        0 <= g < GROUP_COUNT,
        0 <= i < v.config.groups[g].names.len(),
    ensures
        v.scan(now).gray == ruled_out_from(v, 0),
        rules_out(v, g, i) <==> display_colors(v.log, v.keys_of(g, i))[0] == Color::Gray,
        (v.log.len() < v.keys_of(g, i).len() && forall|k: int|
            0 <= k < v.log.len() ==> #[trigger] v.log[k].text() == v.keys_of(g, i)[k])
            ==> !rules_out(v, g, i),
        row_complete(v.log, v.keys_of(g, i)) ==> !rules_out(v, g, i),
{
    let s0 = ScanState { timer: v.log_timer, target: v.delete_target, launch: None, gray: 0 };
    lemma_scan_groups_counts(v, s0, 0, now);
    let keys = v.keys_of(g, i);
    assert(v.config.groups[g].keys.len() == MIN_KEYS + g);
    assert(keys.len() >= 1);
    lemma_colors_verdict(v.log, keys);
    lemma_row_colors_closed_form(v.log, keys);
    crate::matching::lemma_matched_prefix_bound(v.log, keys, keys.len());
    if v.log.len() < keys.len() && forall|k: int| 0 <= k < v.log.len() ==> #[trigger] v.log[k].text() == keys[k] {
        assert(row_colors_spec_first(v.log, keys) == Color::White);
    }
}

spec fn row_colors_spec_first(typed: Seq<Token>, keys: Seq<Seq<char>>) -> Color {
    crate::matching::row_colors_spec(typed, keys)[0]
}

/// Declining a deletion leaves no entry marked and delete mode off, so a
/// confirmation right after it changes nothing and asks for no restart.
pub proof fn lemma_decline_unmarks(v: AppView)
    ensures
        v.after_cancel_delete().delete_target is None,
        !v.after_cancel_delete().delete_mode,
        v.after_cancel_delete().log.len() == 0,
        v.after_cancel_delete().config == v.config,
        v.after_cancel_delete().after_confirm_delete() == (v.after_cancel_delete(), false),
{
}

/// Only Esc closes the window: every other key leaves the open flag as it
/// was; and no key press changes the configuration, the timer, the typed
/// fields of a new entry or the marked entry.
pub proof fn lemma_only_escape_closes(v: AppView, key: Key)
    ensures
        key != Key::Escape ==> v.after_key(key).open == v.open,
        key == Key::Escape ==> !v.after_key(key).open,
        v.after_key(key).config == v.config,
        v.after_key(key).log_timer == v.log_timer,
        v.after_key(key).name == v.name,
        v.after_key(key).path == v.path,
        v.after_key(key).mode == v.mode,
        v.after_key(key).delete_target == v.delete_target,
        v.after_key(key).needs_shell == v.needs_shell,
        v.after_key(key).max_input_len == v.max_input_len,
{
}

/// What each key press does to the typed tokens and the modes: an arrow or
/// Enter appends its token and changes nothing else; Esc appends its token
/// and closes the window; Delete clears the tokens and enters delete mode when
/// nothing was typed; Tab clears the tokens and leaves add and delete mode and
/// the warning; any other key changes nothing.
pub proof fn lemma_key_effects(v: AppView)
    ensures
        v.after_key(Key::ArrowLeft) == (AppView { log: v.log.push(Token::Left), ..v }),
        v.after_key(Key::ArrowRight) == (AppView { log: v.log.push(Token::Right), ..v }),
        v.after_key(Key::ArrowUp) == (AppView { log: v.log.push(Token::Up), ..v }),
        v.after_key(Key::ArrowDown) == (AppView { log: v.log.push(Token::Down), ..v }),
        v.after_key(Key::Enter) == (AppView { log: v.log.push(Token::Add), ..v }),
        v.after_key(Key::Escape) == (AppView { log: v.log.push(Token::Escape), open: false, ..v }),
        v.after_key(Key::Delete) == (AppView {
            log: Seq::empty(),
            delete_mode: v.delete_mode || v.log.len() == 0,
            ..v
        }),
        v.after_key(Key::Tab) == (AppView {
            log: Seq::empty(),
            add_in: false,
            delete_mode: false,
            warn: false,
            ..v
        }),
        v.after_key(Key::Other) == v,
{
    assert(v.after_key(Key::Delete).delete_mode == (v.delete_mode || v.log.len() == 0));
}

/// An Enter press in add mode whose new entry lacks a name, a launch mode or
/// a command or path, or whose name or path holds a double quote, adds no
/// entry, leaves the configuration as it was, asks for no restart, stays in
/// add mode and raises the warning.
pub proof fn lemma_incomplete_entry_rejected(v: AppView)
    requires
        v.add_in,
        v.log.contains(Token::Add),
        v.name.len() == 0 || v.mode.len() == 0 || v.path.len() == 0 || v.name.contains('"')
            || v.path.contains('"'),
    ensures
        v.after_add().0.config == v.config,
        !v.after_add().1,
        v.after_add().0.add_in,
        v.after_add().0.warn,
        v.after_add().0.log == v.log.drop_last(),
{
}

/// An Enter press in add mode with a name, a launch mode and a command or
/// path free of double quotes adds one entry, with the remaining typed
/// tokens as keys, to the group with that many keys when there are 3 to 7 of
/// them, clears the fields and the warning, ends add mode and asks for the
/// restart; with any other count it adds nothing and raises the warning.
pub proof fn lemma_complete_entry_added(v: AppView)
    requires
        v.config.wf(),
        v.add_in,
        v.log.contains(Token::Add),
        v.name.len() > 0,
        v.mode.len() > 0,
        v.path.len() > 0,
        !v.name.contains('"'),
        !v.path.contains('"'),
        v.config.total_rows() + 1 < usize::MAX,
    ensures
        ({
            let typed = v.log.drop_last();
            let (w, restart) = v.after_add();
            if MIN_KEYS <= typed.len() <= MAX_KEYS {
                let g = typed.len() - MIN_KEYS;
                &&& restart
                &&& !w.add_in
                &&& !w.warn
                &&& w.name.len() == 0 && w.mode.len() == 0 && w.path.len() == 0
                &&& w.config.total_rows() == v.config.total_rows() + 1
                &&& w.config.wf()
                &&& w.log == typed
                &&& w.config.groups[g].names == v.config.groups[g].names.push(v.name)
                &&& w.config.groups[g].paths == v.config.groups[g].paths.push(v.path)
                &&& w.config.groups[g].modes == v.config.groups[g].modes.push(v.mode)
                &&& forall|k: int| 0 <= k < typed.len() ==> #[trigger] w.config.groups[g].keys[k]
                    == v.config.groups[g].keys[k].push(typed[k].text())
                &&& forall|h: int| 0 <= h < GROUP_COUNT && h != g ==> #[trigger] w.config.groups[h]
                    == v.config.groups[h]
            } else {
                &&& !restart
                &&& w.config == v.config
                &&& w.warn
                &&& w.add_in
            }
        }),
{
    let typed = v.log.drop_last();
    if MIN_KEYS <= typed.len() <= MAX_KEYS {
        let g = typed.len() - MIN_KEYS;
        crate::config::lemma_add_entry_wf(v.config, g, texts_of(typed), v.name, v.path, v.mode);
    }
}

/// An Enter press outside add mode starts add mode with no tokens typed,
/// changes nothing else that is stored and asks for no restart; without an
/// Enter among the typed tokens nothing happens.
pub proof fn lemma_enter_starts_add_mode(v: AppView)
    ensures
        (v.log.contains(Token::Add) && !v.add_in) ==> {
            let (w, restart) = v.after_add();
            &&& w.add_in
            &&& w.log.len() == 0
            &&& w.config == v.config
            &&& !restart
        },
        !v.log.contains(Token::Add) ==> v.after_add() == (v, false),
{
}

/// At start the launcher asks for a terminal emulator exactly when the
/// configuration lists none, counts all the configuration's entries, and
/// has nothing typed, no mode on, no timer and no entry marked.
pub proof fn lemma_initial_state(c: ConfigView)
    ensures
        AppView::initial(c).needs_shell <==> c.shell.len() == 0,
        AppView::initial(c).config == c,
        AppView::initial(c).max_input_len == c.total_rows(),
        AppView::initial(c).open,
        AppView::initial(c).log.len() == 0,
        !AppView::initial(c).add_in && !AppView::initial(c).delete_mode,
        AppView::initial(c).log_timer is None,
        AppView::initial(c).delete_target is None,
        !AppView::initial(c).warn,
{
}

/// Confirming the typed terminal emulator appends it to the configured ones,
/// stops asking for one and clears the typed name, and changes no entry.
pub proof fn lemma_shell_recorded(v: AppView)
    ensures
        v.after_confirm_shell().config.shell == v.config.shell.push(v.name),
        v.after_confirm_shell().config.groups == v.config.groups,
        !v.after_confirm_shell().needs_shell,
        v.after_confirm_shell().name.len() == 0,
{
}

/// A frame end clears the typed tokens only when the running timer has run
/// out outside add mode (or a clear was pending), and starts the timer only
/// when every entry at start is ruled out and no timer runs.
pub proof fn lemma_frame_end_effects(v: AppView, gray: nat, now: u64)
    requires
        !v.time_clear,
        now + CLEAR_DELAY_MS <= u64::MAX,
    ensures
        ({
            let w = v.after_frame_end(gray, now);
            &&& w.log.len() != 0 ==> w.log == v.log
            &&& (v.log_timer matches Some(t) && !v.add_in && now >= t) ==> w.log.len() == 0
                && w.log_timer is None
            &&& (v.log_timer matches Some(t) && (v.add_in || now < t)) ==> w.log == v.log
                && w.log_timer == v.log_timer
            &&& (v.log_timer is None && gray != v.max_input_len) ==> w.log == v.log
                && w.log_timer is None
            &&& (v.log_timer is None && gray == v.max_input_len) ==> w.log == v.log
                && w.log_timer == Some((now + CLEAR_DELAY_MS) as u64)
            &&& w.config == v.config
            &&& w.open == v.open
        }),
{
}

/// In add mode a scan launches nothing, marks nothing and leaves the timer
/// as it was; it only colours the entries and counts the ruled-out ones.
pub proof fn lemma_add_mode_scan_quiet(v: AppView, now: u64)
    requires
        v.add_in,
    ensures
        v.scan(now).launch is None,
        v.after_scan(now).log_timer == v.log_timer,
        v.after_scan(now).delete_target == v.delete_target,
{
    let s0 = ScanState { timer: v.log_timer, target: v.delete_target, launch: None, gray: 0 };
    lemma_scan_groups_quiet(v, s0, 0, now);
}

proof fn lemma_scan_group_quiet(v: AppView, s: ScanState, g: int, i: int, now: u64)
    requires
        v.add_in,
    ensures
        v.scan_group(s, g, i, now).launch == s.launch,
        v.scan_group(s, g, i, now).timer == s.timer,
        v.scan_group(s, g, i, now).target == s.target,
    decreases v.config.groups[g].names.len() - i,
{
    if 0 <= i < v.config.groups[g].names.len() {
        lemma_scan_group_quiet(v, v.scan_row(s, g, i, now), g, i + 1, now);
    }
}

proof fn lemma_scan_groups_quiet(v: AppView, s: ScanState, g: int, now: u64)
    requires
        v.add_in,
    ensures
        v.scan_groups(s, g, now).launch == s.launch,
        v.scan_groups(s, g, now).timer == s.timer,
        v.scan_groups(s, g, now).target == s.target,
    decreases GROUP_COUNT - g,
{
    if 0 <= g < GROUP_COUNT {
        lemma_scan_group_quiet(v, s, g, 0, now);
        lemma_scan_groups_quiet(v, v.scan_group(s, g, 0, now), g + 1, now);
    }
}

/// A scan changes nothing but the timer and the marked entry: not the
/// configuration, the typed tokens, the modes or the typed fields.
pub proof fn lemma_scan_changes_only_marks(v: AppView, now: u64)
    ensures
        v.after_scan(now) == (AppView {
            log_timer: v.after_scan(now).log_timer,
            delete_target: v.after_scan(now).delete_target,
            ..v
        }),
{
}

/// Confirming a deletion with no entry marked, or with a mark past all
/// entries, changes nothing and asks for no restart.
pub proof fn lemma_confirm_without_entry(v: AppView)
    requires
        v.config.wf(),
        v.delete_target is None || v.delete_target->0 >= v.config.total_rows(),
    ensures
        v.after_confirm_delete() == (v, false),
{
    if let Some(t) = v.delete_target {
        crate::config::lemma_group_of_index(v.config.groups, t as int, 0);
        if let Some(h) = crate::config::group_of_index(v.config.groups, t as int, 0) {
            crate::config::lemma_rows_before_monotone(v.config.groups, h + 1, GROUP_COUNT as int);
        }
    }
}

/// Deleting index `idx` of group `g` takes that element out of every column
/// of the group and leaves the other groups and the terminal emulators alone.
pub proof fn lemma_remove_entry_effect(c: ConfigView, g: int, idx: int)
    requires
        c.wf(),
        0 <= g < GROUP_COUNT,
    ensures
        c.remove_entry(g, idx).groups[g].names == c.groups[g].names.remove(idx),
        c.remove_entry(g, idx).groups[g].paths == c.groups[g].paths.remove(idx),
        c.remove_entry(g, idx).groups[g].modes == c.groups[g].modes.remove(idx),
        c.remove_entry(g, idx).groups[g].keys.len() == c.groups[g].keys.len(),
        forall|k: int|
            0 <= k < c.groups[g].keys.len() ==> #[trigger] c.remove_entry(g, idx).groups[g].keys[k]
                == c.groups[g].keys[k].remove(idx),
        forall|h: int| 0 <= h < GROUP_COUNT && h != g ==> #[trigger] c.remove_entry(g, idx).groups[h] == c.groups[h],
        c.remove_entry(g, idx).shell == c.shell,
{
}

/// Escaping turns a single quote into `'\''` and leaves every other
/// character as it is; with the compositional law this fixes the escape of
/// every text.
pub proof fn lemma_escape_chars(c: char)
    ensures
        crate::launch::escape_quotes(seq![c]) == (if c == '\'' {
            seq!['\'', '\\', '\'', '\'']
        } else {
            seq![c]
        }),
{
    reveal_with_fuel(crate::launch::escape_quotes, 2);
    assert(seq![c].drop_last() =~= Seq::<char>::empty());
    assert(seq![c].last() == c);
    assert(Seq::<char>::empty() + seq!['\'', '\\', '\'', '\''] =~= seq!['\'', '\\', '\'', '\'']);
    assert(Seq::<char>::empty().push(c) =~= seq![c]);
}

/// A launch in mode `t` runs `sh -c` with the path, its quotes escaped, in
/// the terminal emulator; any other mode opens with `xdg-open` the path
/// itself when it does not start with a tilde, and otherwise the path with
/// its leading tilde replaced by some text.
pub proof fn lemma_launch_shape(
    path: Seq<char>,
    mode: Seq<char>,
    shell: Seq<char>,
    cmd: crate::launch::LaunchView,
)
    requires
        crate::launch::launch_plan_ok(path, mode, shell, cmd),
    ensures
        mode == seq!['t'] ==> {
            &&& cmd.kind == crate::launch::LaunchKind::Terminal
            &&& cmd.program == shell
            &&& cmd.args == seq![
                seq!['-', 'e'],
                seq!['s', 'h'],
                seq!['-', 'c'],
                crate::launch::escape_quotes(path),
            ]
        },
        mode != seq!['t'] ==> {
            &&& cmd.kind == crate::launch::LaunchKind::Opener
            &&& cmd.program == seq!['x', 'd', 'g', '-', 'o', 'p', 'e', 'n']
            &&& cmd.args.len() == 1
            &&& (path.len() == 0 || path[0] != '~') ==> cmd.args[0] == path
            &&& (path.len() > 0 && path[0] == '~') ==> exists|home: Seq<char>|
                cmd.args[0] == home + path.skip(1)
        },
{
    if mode != seq!['t'] {
        let e = choose|e: Seq<char>|
            crate::launch::tilde_expansion_ok(path, e) && cmd == crate::launch::opener_launch(e);
        assert(cmd.args[0] == e);
    }
}

} // verus!
