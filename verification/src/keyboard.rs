use vstd::prelude::*;
use vstd::string::*;

use crate::config::{
    group_of_index, rows_before, Config, ConfigView, GROUP_COUNT, MIN_KEYS,
};
use crate::matching::{
    lemma_colors_verdict, lemma_matched_prefix_bound, matched_prefix, mismatched, row_colors, row_colors_spec,
    row_complete, row_keys, Color,
};
use crate::token::{key_token, spec_key_token, Key, Token};

verus! {

/// How long, in milliseconds, a launch blocks further launches, and how long
/// a sequence that selects nothing stays on screen before it is cleared.
pub const CLEAR_DELAY_MS: u64 = 1000;

/// The largest key count an entry can have.
pub const MAX_KEYS: usize = 7;

/// The state of the launcher between frames.
pub struct KeyboardApp {
    focused: bool,
    config: Config,
    input_log: Vec<Token>,
    open: bool,
    max_input_len: usize,
    log_timer: Option<u64>,
    time_clear: bool,
    add_in: bool,
    name: String,
    mode: String,
    path: String,
    warn: bool,
    needs_shell: bool,
    delete_mode: bool,
    delete_target: Option<usize>,
}

/// The launcher's state as values: the window's focus, the configuration,
/// the typed tokens, whether the window stays open, the entry count taken at
/// start, the deadline of the clearing timer (milliseconds), the pending
/// clear, add mode, the name, mode and path typed for a new entry, the
/// warning about an incomplete new entry, whether a terminal emulator must
/// still be chosen, delete mode, and the global index of the entry marked for
/// deletion.
pub struct AppView {
    pub focused: bool,
    pub config: ConfigView,
    pub log: Seq<Token>,
    pub open: bool,
    pub max_input_len: nat,
    pub log_timer: Option<u64>,
    pub time_clear: bool,
    pub add_in: bool,
    pub name: Seq<char>,
    pub mode: Seq<char>,
    pub path: Seq<char>,
    pub warn: bool,
    pub needs_shell: bool,
    pub delete_mode: bool,
    pub delete_target: Option<usize>,
}

impl View for KeyboardApp {
    type V = AppView;

    open spec fn view(&self) -> AppView {
        self.model()
    }
}

/// Where a row scan stands: the clearing timer, the entry marked for
/// deletion, the entry to launch, and the number of entries the typed
/// sequence has ruled out.
pub struct ScanState {
    pub timer: Option<u64>,
    pub target: Option<usize>,
    pub launch: Option<(usize, usize)>,
    pub gray: nat,
}

/// The key texts that a new entry gets from the typed tokens.
pub open spec fn texts_of(log: Seq<Token>) -> Seq<Seq<char>> {
    Seq::new(log.len(), |k: int| log[k].text())
}

/// The colours an entry is shown in: those of the column comparison, with
/// the name green when the typed sequence selects the entry.
pub open spec fn display_colors(log: Seq<Token>, keys: Seq<Seq<char>>) -> Seq<Color> {
    if row_complete(log, keys) {
        row_colors_spec(log, keys).update(0, Color::Green)
    } else {
        row_colors_spec(log, keys)
    }
}

/// The timer deadline one delay after `now`.
pub open spec fn deadline(now: u64) -> u64 {
    (now + CLEAR_DELAY_MS) as u64
}

impl AppView {
    /// The state right after start with configuration `config`.
    pub open spec fn initial(config: ConfigView) -> AppView {
        AppView {
            focused: false,
            config,
            log: Seq::empty(),
            open: true,
            max_input_len: config.total_rows(),
            log_timer: None,
            time_clear: false,
            add_in: false,
            name: Seq::empty(),
            mode: Seq::empty(),
            path: Seq::empty(),
            warn: false,
            needs_shell: config.shell.len() == 0,
            delete_mode: false,
            delete_target: None,
        }
    }

    /// The state after a key press: a recognised key appends its token; then
    /// Escape closes the window, Delete enters delete mode when it is the
    /// only token and clears the tokens in any case, and Tab leaves add and
    /// delete mode, drops the warning and clears the tokens.
    pub open spec fn after_key(self, key: Key) -> AppView {
        match spec_key_token(key) {
            None => self,
            Some(t) => {
                let log = self.log.push(t);
                if t == Token::Escape {
                    AppView { log, open: false, ..self }
                } else if t == Token::Delete && log.len() == 1 {
                    AppView { log: Seq::empty(), delete_mode: true, ..self }
                } else if t == Token::Delete {
                    AppView { log: Seq::empty(), ..self }
                } else if t == Token::Exit {
                    AppView {
                        log: Seq::empty(),
                        add_in: false,
                        delete_mode: false,
                        warn: false,
                        ..self
                    }
                } else {
                    AppView { log, ..self }
                }
            },
        }
    }

    /// The state after the key presses `keys`, in order.
    pub open spec fn after_keys(self, keys: Seq<Key>) -> AppView
        decreases keys.len(),
    {
        if keys.len() == 0 {
            self
        } else {
            self.after_keys(keys.drop_last()).after_key(keys.last())
        }
    }

    /// The name, mode and path of a new entry are filled in, and neither the
    /// name nor the path holds a double quote.
    pub open spec fn entry_fields_ok(self) -> bool {
        &&& self.name.len() > 0
        &&& self.mode.len() > 0
        &&& self.path.len() > 0
        &&& !self.path.contains('"')
        &&& !self.name.contains('"')
    }

    /// The state after an Enter press is handled, with whether the
    /// configuration is to be saved and the launcher restarted. Nothing
    /// happens without an Add token. Otherwise the last token is dropped;
    /// outside add mode the tokens are cleared and add mode begins; in add
    /// mode, with the entry's fields filled in and 3 to 7 tokens left, the
    /// tokens become the keys of a new entry of the group with that many keys
    /// and the fields and the warning are cleared, add mode ends and the
    /// restart is asked for; any other case raises the warning.
    pub open spec fn after_add(self) -> (AppView, bool) {
        if !self.log.contains(Token::Add) {
            (self, false)
        } else {
            let log = self.log.drop_last();
            if !self.add_in {
                (AppView { log: Seq::empty(), add_in: true, ..self }, false)
            } else if self.entry_fields_ok() {
                let n = log.len();
                if MIN_KEYS <= n <= MAX_KEYS {
                    (AppView {
                        log,
                        config: self.config.add_entry(
                            n - MIN_KEYS,
                            texts_of(log),
                            self.name,
                            self.path,
                            self.mode,
                        ),
                        name: Seq::empty(),
                        mode: Seq::empty(),
                        path: Seq::empty(),
                        warn: false,
                        add_in: false,
                        ..self
                    }, true)
                } else {
                    (AppView { log, warn: true, ..self }, false)
                }
            } else {
                (AppView { log, warn: true, ..self }, false)
            }
        }
    }

    /// The key texts of entry `i` of group `g`.
    pub open spec fn keys_of(self, g: int, i: int) -> Seq<Seq<char>> {
        row_keys(self.config.groups[g].keys, i)
    }

    /// One entry of the scan: an entry the typed sequence selects, found
    /// while no timer runs and outside add mode, is launched (and the timer
    /// started) or, in delete mode, marked by its global index; an entry the
    /// sequence rules out is counted.
    pub open spec fn scan_row(self, s: ScanState, g: int, i: int, now: u64) -> ScanState {
        let keys = self.keys_of(g, i);
        if row_complete(self.log, keys) {
            if s.timer is None && !self.add_in {
                if !self.delete_mode {
                    ScanState { timer: Some(deadline(now)), launch: Some((g as usize, i as usize)), ..s }
                } else {
                    ScanState { target: Some((rows_before(self.config.groups, g) + i) as usize), ..s }
                }
            } else {
                s
            }
        } else if mismatched(self.log, keys, keys.len()) {
            ScanState { gray: s.gray + 1, ..s }
        } else {
            s
        }
    }

    /// The scan of the entries of group `g` from entry `i` on.
    pub open spec fn scan_group(self, s: ScanState, g: int, i: int, now: u64) -> ScanState
        decreases self.config.groups[g].names.len() - i,
    {
        if i < 0 || i >= self.config.groups[g].names.len() {
            s
        } else {
            self.scan_group(self.scan_row(s, g, i, now), g, i + 1, now)
        }
    }

    /// The scan of the groups from group `g` on.
    pub open spec fn scan_groups(self, s: ScanState, g: int, now: u64) -> ScanState
        decreases GROUP_COUNT - g,
    {
        if g < 0 || g >= GROUP_COUNT {
            s
        } else {
            self.scan_groups(self.scan_group(s, g, 0, now), g + 1, now)
        }
    }

    /// The scan of all entries, in group order, at time `now`.
    pub open spec fn scan(self, now: u64) -> ScanState {
        self.scan_groups(
            ScanState { timer: self.log_timer, target: self.delete_target, launch: None, gray: 0 },
            0,
            now,
        )
    }

    /// The state after the scan at time `now`.
    pub open spec fn after_scan(self, now: u64) -> AppView {
        let s = self.scan(now);
        AppView { log_timer: s.timer, delete_target: s.target, ..self }
    }

    /// The end of a frame: when every entry is ruled out (`gray` of them)
    /// and no timer runs, the timer starts; a timer that has run out outside
    /// add mode stops and clears the typed tokens.
    pub open spec fn after_frame_end(self, gray: nat, now: u64) -> AppView {
        let timer = if gray == self.max_input_len && self.log_timer is None {
            Some(deadline(now))
        } else {
            self.log_timer
        };
        let fired = match timer {
            Some(t) => !self.add_in && now >= t,
            None => false,
        };
        let timer2 = if fired {
            None
        } else {
            timer
        };
        if fired || self.time_clear {
            AppView { log_timer: timer2, time_clear: false, log: Seq::empty(), ..self }
        } else {
            AppView { log_timer: timer2, ..self }
        }
    }

    /// The position, within group `g`, of the entry with global index `t`.
    pub open spec fn local_index(self, g: int, t: int) -> int {
        t - rows_before(self.config.groups, g)
    }

    /// The entry marked for deletion can be taken out of its group: every
    /// column of the group it falls in has an element at its position there.
    pub open spec fn delete_fits(self) -> bool {
        match self.delete_target {
            Some(t) => match group_of_index(self.config.groups, t as int, 0) {
                Some(g) => self.config.groups[g].has_index(self.local_index(g, t as int)),
                None => true,
            },
            None => true,
        }
    }

    /// The state after the deletion is confirmed, with whether to save and
    /// restart. The marked entry, found by its global index, is taken out of
    /// every column of its group; then delete mode ends. An index past all
    /// entries changes nothing.
    pub open spec fn after_confirm_delete(self) -> (AppView, bool) {
        match self.delete_target {
            None => (self, false),
            Some(t) => match group_of_index(self.config.groups, t as int, 0) {
                Some(g) => (
                    AppView {
                        config: self.config.remove_entry(g, self.local_index(g, t as int)),
                        delete_mode: false,
                        delete_target: None,
                        ..self
                    },
                    true,
                ),
                None => (self, false),
            },
        }
    }

    /// The state after the deletion is declined.
    pub open spec fn after_cancel_delete(self) -> AppView {
        AppView { delete_mode: false, delete_target: None, log: Seq::empty(), ..self }
    }

    /// The state after the typed name is taken as the terminal emulator.
    pub open spec fn after_confirm_shell(self) -> AppView {
        AppView {
            config: self.config.add_shell(self.name),
            name: Seq::empty(),
            needs_shell: false,
            ..self
        }
    }
}


/// The colours of one entry in a frame: group, entry within the group, and
/// colours (name first, then one per key).
pub struct RowColors {
    pub group: usize,
    pub row: usize,
    pub colors: Vec<Color>,
}

/// What the row scan of a frame found: the colours of every entry, in
/// group order, the entry to launch, and how many entries the typed
/// sequence rules out.
pub struct ScanReport {
    pub rows: Vec<RowColors>,
    pub launch: Option<(usize, usize)>,
    pub gray_rows: usize,
}

/// Entry `r` of a scan report is entry `row` of group `group`, numbered `r`
/// across the groups in order, in the colours it is shown in.
pub open spec fn row_report_ok(v: AppView, r: int, group: usize, row: usize, colors: Seq<Color>) -> bool {
    &&& group < GROUP_COUNT
    &&& row < v.config.groups[group as int].names.len()
    &&& rows_before(v.config.groups, group as int) + row == r
    &&& colors == display_colors(v.log, v.keys_of(group as int, row as int))
}

/// Whether `c` occurs in `s`.
pub fn has_char(s: &String, c: char) -> (b: bool)
    ensures
        b == s@.contains(c),
{
    let t = s.as_str();
    let n = t.unicode_len();
    let mut i: usize = 0;
    while i < n
        invariant
            0 <= i <= n,
            n == s@.len(),
            t@ == s@,
            forall|j: int| 0 <= j < i ==> s@[j] != c,
        decreases n - i,
    {
        if t.get_char(i) == c {
            return true;
        }
        i = i + 1;
    }
    false
}

impl KeyboardApp {
    pub closed spec fn model(&self) -> AppView {
        AppView {
            focused: self.focused,
            config: self.config@,
            log: self.input_log@,
            open: self.open,
            max_input_len: self.max_input_len as nat,
            log_timer: self.log_timer,
            time_clear: self.time_clear,
            add_in: self.add_in,
            name: self.name@,
            mode: self.mode@,
            path: self.path@,
            warn: self.warn,
            needs_shell: self.needs_shell,
            delete_mode: self.delete_mode,
            delete_target: self.delete_target,
        }
    }

    /// The state every method keeps: a well-formed configuration.
    pub open spec fn inv(&self) -> bool {
        self@.config.wf()
    }

    /// The launcher at start, with the configuration read at start: it asks
    /// for a terminal emulator when none is configured, and remembers how
    /// many entries there are.
    pub fn new(config: Config) -> (app: KeyboardApp)
        requires
            config@.wf(),
        ensures
            app@ == AppView::initial(config@),
            app.inv(),
    {
        let needs_shell = config.shell.len() == 0;
        let max_input_len = config.total_rows();
        KeyboardApp {
            focused: false,
            config,
            input_log: Vec::new(),
            open: true,
            max_input_len,
            log_timer: None,
            time_clear: false,
            add_in: false,
            name: String::new(),
            mode: String::new(),
            path: String::new(),
            warn: false,
            needs_shell,
            delete_mode: false,
            delete_target: None,
        }
    }

    /// Records whether the window has the keyboard focus.
    pub fn set_focused(&mut self, focused: bool)
        ensures
            final(self)@ == (AppView { focused, ..old(self)@ }),
    {
        self.focused = focused;
    }

    /// Handles one key press.
    pub fn handle_key(&mut self, key: Key)
        requires
            old(self).inv(),
        ensures
            final(self)@ == old(self)@.after_key(key),
            final(self).inv(),
    {
        match key_token(key) {
            None => {},
            Some(t) => {
                self.input_log.push(t);
                if t == Token::Escape {
                    self.open = false;
                } else if t == Token::Delete && self.input_log.len() == 1 {
                    self.delete_mode = true;
                    self.input_log.clear();
                } else if t == Token::Delete {
                    self.input_log.clear();
                } else if t == Token::Exit {
                    self.add_in = false;
                    self.delete_mode = false;
                    self.warn = false;
                    self.input_log.clear();
                }
            },
        }
    }

    /// Handles the key presses of a frame, in order.
    pub fn handle_keys(&mut self, keys: &Vec<Key>)
        requires
            old(self).inv(),
        ensures
            final(self)@ == old(self)@.after_keys(keys@),
            final(self).inv(),
    {
        let ghost start = self@;
        let mut i: usize = 0;
        while i < keys.len()
            invariant
                0 <= i <= keys@.len(),
                self.inv(),
                self@ == start.after_keys(keys@.take(i as int)),
            decreases keys@.len() - i,
        {
            assert(keys@.take(i + 1).drop_last() =~= keys@.take(i as int));
            self.handle_key(keys[i]);
            i = i + 1;
        }
        assert(keys@.take(keys@.len() as int) =~= keys@);
    }

    /// Handles an Enter press among the typed tokens (see
    /// [`AppView::after_add`]); returns whether the configuration is to be
    /// saved and the launcher restarted.
    pub fn process_add(&mut self) -> (restart: bool)
        requires
            old(self).inv(),
            old(self)@.config.total_rows() + 1 < usize::MAX,
        ensures
            (final(self)@, restart) == old(self)@.after_add(),
            final(self).inv(),
    {
        let ghost v = self@;
        let mut found = false;
        let mut i: usize = 0;
        while i < self.input_log.len()
            invariant
                0 <= i <= self.input_log@.len(),
                self@ == v,
                found == v.log.take(i as int).contains(Token::Add),
            decreases self.input_log@.len() - i,
        {
            proof {
                let s0 = v.log.take(i as int);
                let s1 = v.log.take(i + 1);
                assert(s1 =~= s0.push(v.log[i as int]));
                if s0.contains(Token::Add) {
                    let j = choose|j: int| 0 <= j < s0.len() && s0[j] == Token::Add;
                    assert(s1[j] == Token::Add);
                }
                if v.log[i as int] == Token::Add {
                    assert(s1[i as int] == Token::Add);
                }
                if s1.contains(Token::Add) && v.log[i as int] != Token::Add {
                    let j = choose|j: int| 0 <= j < s1.len() && s1[j] == Token::Add;
                    assert(s0[j] == Token::Add);
                }
            }
            if self.input_log[i] == Token::Add {
                found = true;
            }
            i = i + 1;
        }
        assert(v.log.take(v.log.len() as int) =~= v.log);
        if !found {
            return false;
        }
        self.input_log.pop();
        assert(self.input_log@ =~= v.log.drop_last());
        if !self.add_in {
            self.input_log.clear();
            self.add_in = true;
            return false;
        }
        let fields_ok = !self.name.as_str().is_empty() && !self.mode.as_str().is_empty()
            && !self.path.as_str().is_empty() && !has_char(&self.path, '"') && !has_char(
            &self.name,
            '"',
        );
        if fields_ok {
            let n = self.input_log.len();
            if MIN_KEYS <= n && n <= MAX_KEYS {
                let mut keys: Vec<String> = Vec::new();
                let mut k: usize = 0;
                while k < n
                    invariant
                        0 <= k <= n,
                        n == self.input_log@.len(),
                        keys@.len() == k,
                        forall|m: int| 0 <= m < k ==> (#[trigger] keys@[m])@ == self.input_log@[m].text(),
                    decreases n - k,
                {
                    keys.push(self.input_log[k].to_text());
                    k = k + 1;
                }
                assert(keys.deep_view() =~= texts_of(self.input_log@));
                let mut name = String::new();
                std::mem::swap(&mut name, &mut self.name);
                let mut path = String::new();
                std::mem::swap(&mut path, &mut self.path);
                let mut mode = String::new();
                std::mem::swap(&mut mode, &mut self.mode);
                self.config.add_entry(n - MIN_KEYS, &keys, name, path, mode);
                self.warn = false;
                self.add_in = false;
                return true;
            } else {
                self.warn = true;
                return false;
            }
        } else {
            self.warn = true;
            return false;
        }
    }

    /// Compares the typed tokens with every entry, in group order (see
    /// [`AppView::scan`]): reports each entry's colours, the entry to launch
    /// and the number of entries ruled out, and keeps the timer and the
    /// entry marked for deletion.
    pub fn scan_rows(&mut self, now: u64) -> (report: ScanReport)
        requires
            old(self).inv(),
            now + CLEAR_DELAY_MS <= u64::MAX,
        ensures
            final(self)@ == old(self)@.after_scan(now),
            final(self).inv(),
            report.launch == old(self)@.scan(now).launch,
            report.gray_rows == old(self)@.scan(now).gray,
            report.rows@.len() == old(self)@.config.total_rows(),
            forall|r: int|
                0 <= r < report.rows@.len() ==> row_report_ok(
                    old(self)@,
                    r,
                    (#[trigger] report.rows@[r]).group,
                    report.rows@[r].row,
                    report.rows@[r].colors@,
                ),
    {
        let ghost v = self@;
        let ghost fin = v.scan(now);
        let mut timer = self.log_timer;
        let mut target = self.delete_target;
        let mut launch: Option<(usize, usize)> = None;
        let mut gray: usize = 0;
        let mut rows: Vec<RowColors> = Vec::new();
        let mut g: usize = 0;
        while g < GROUP_COUNT
            invariant
                0 <= g <= GROUP_COUNT,
                self@ == v,
                v.config.wf(),
                now + CLEAR_DELAY_MS <= u64::MAX,
                fin == v.scan_groups(
                    ScanState { timer, target, launch, gray: gray as nat },
                    g as int,
                    now,
                ),
                gray <= rows_before(v.config.groups, g as int),
                rows@.len() == rows_before(v.config.groups, g as int),
                forall|r: int|
                    0 <= r < rows@.len() ==> row_report_ok(
                        v,
                        r,
                        (#[trigger] rows@[r]).group,
                        rows@[r].row,
                        rows@[r].colors@,
                    ),
            decreases GROUP_COUNT - g,
        {
            let offset = self.config.rows_before(g);
            proof {
                crate::config::lemma_rows_before_monotone(v.config.groups, g + 1, 5);
            }
            let grp = &self.config.groups[g];
            assert(grp@ == v.config.groups[g as int]);
            let n = grp.names.len();
            let w = grp.keys.len();
            let mut i: usize = 0;
            while i < n
                invariant
                    0 <= i <= n,
                    g < GROUP_COUNT,
                    self@ == v,
                    v.config.wf(),
                    grp@ == v.config.groups[g as int],
                    n == grp@.names.len(),
                    w == grp@.keys.len(),
                    w == MIN_KEYS + g,
                    offset == rows_before(v.config.groups, g as int),
                    offset + n == rows_before(v.config.groups, g + 1),
                    rows_before(v.config.groups, g + 1) <= v.config.total_rows(),
                    now + CLEAR_DELAY_MS <= u64::MAX,
                    fin == v.scan_groups(
                        v.scan_group(
                            ScanState { timer, target, launch, gray: gray as nat },
                            g as int,
                            i as int,
                            now,
                        ),
                        g + 1,
                        now,
                    ),
                    gray <= offset + i,
                    rows@.len() == offset + i,
                    forall|r: int|
                        0 <= r < rows@.len() ==> row_report_ok(
                            v,
                            r,
                            (#[trigger] rows@[r]).group,
                            rows@[r].row,
                            rows@[r].colors@,
                        ),
                decreases n - i,
            {
                let ghost st = ScanState { timer, target, launch, gray: gray as nat };
                let ghost keys = v.keys_of(g as int, i as int);
                proof {
                    assert forall|k: int| 0 <= k < grp@.keys.len() && self.input_log@.len() > k implies i
                        < #[trigger] grp.keys@[k]@.len() by {
                        assert(grp@.keys[k].len() == grp.keys@[k]@.len());
                        assert(v.config.groups[g as int].columns_cover_names());
                    }
                    assert(keys == row_keys(grp.keys.deep_view(), i as int));
                    lemma_colors_verdict(v.log, keys);
                }
                let mut colors = row_colors(&self.input_log, &grp.keys, i);
                let mut all_green = true;
                let mut j: usize = 1;
                while j <= w
                    invariant
                        1 <= j <= w + 1,
                        w < usize::MAX,
                        colors@.len() == w + 1,
                        all_green == (forall|m: int| 1 <= m < j ==> colors@[m] == Color::Green),
                    decreases w + 1 - j,
                {
                    if colors[j] != Color::Green {
                        all_green = false;
                    }
                    j = j + 1;
                }
                if self.input_log.len() >= w && all_green {
                    assert(row_complete(v.log, keys));
                    colors.set(0, Color::Green);
                    if timer.is_none() && !self.add_in {
                        if !self.delete_mode {
                            timer = Some(now + CLEAR_DELAY_MS);
                            launch = Some((g, i));
                        } else {
                            target = Some(offset + i);
                        }
                    }
                } else {
                    assert(!row_complete(v.log, keys));
                    if colors[0] == Color::Gray {
                        gray = gray + 1;
                    }
                }
                assert(v.scan_row(st, g as int, i as int, now) == ScanState {
                    timer,
                    target,
                    launch,
                    gray: gray as nat,
                });
                assert(colors@ == display_colors(v.log, keys));
                rows.push(RowColors { group: g, row: i, colors });
                i = i + 1;
            }
            g = g + 1;
        }
        self.log_timer = timer;
        self.delete_target = target;
        ScanReport { rows, launch, gray_rows: gray }
    }

    /// Ends a frame in which `gray` entries were ruled out, at time `now`
    /// (see [`AppView::after_frame_end`]).
    pub fn end_frame(&mut self, gray: usize, now: u64)
        requires
            old(self).inv(),
            now + CLEAR_DELAY_MS <= u64::MAX,
        ensures
            final(self)@ == old(self)@.after_frame_end(gray as nat, now),
            final(self).inv(),
    {
        if gray == self.max_input_len && self.log_timer.is_none() {
            self.log_timer = Some(now + CLEAR_DELAY_MS);
        }
        match self.log_timer {
            Some(t) => {
                if !self.add_in && now >= t {
                    self.time_clear = true;
                    self.log_timer = None;
                }
            },
            None => {},
        }
        if self.time_clear {
            self.time_clear = false;
            self.input_log.clear();
        }
    }

    /// Whether the entry marked for deletion can be taken out of its group
    /// (see [`AppView::delete_fits`]).
    pub fn delete_target_fits(&self) -> (b: bool)
        requires
            self.inv(),
        ensures
            b == self@.delete_fits(),
    {
        match self.delete_target {
            None => true,
            Some(t) => match self.config.group_of_index(t) {
                Some(g) => {
                    proof {
                        crate::config::lemma_group_of_index(self@.config.groups, t as int, 0);
                    }
                    assert(self@.config.groups[g as int] == self.config.groups@[g as int]@);
                    let offset = self.config.rows_before(g);
                    self.config.groups[g].has_index(t - offset)
                },
                None => true,
            },
        }
    }

    /// Confirms the deletion of the marked entry (see
    /// [`AppView::after_confirm_delete`]); returns whether the configuration
    /// is to be saved and the launcher restarted.
    pub fn confirm_delete(&mut self) -> (restart: bool)
        requires
            old(self).inv(),
            old(self)@.delete_fits(),
        ensures
            (final(self)@, restart) == old(self)@.after_confirm_delete(),
            final(self).inv(),
    {
        match self.delete_target {
            None => false,
            Some(t) => match self.config.group_of_index(t) {
                Some(g) => {
                    proof {
                        crate::config::lemma_group_of_index(self@.config.groups, t as int, 0);
                    }
                    let offset = self.config.rows_before(g);
                    self.config.remove_entry(g, t - offset);
                    self.delete_mode = false;
                    self.delete_target = None;
                    true
                },
                None => false,
            },
        }
    }

    /// Declines the deletion: leaves delete mode and clears the typed tokens.
    pub fn cancel_delete(&mut self)
        requires
            old(self).inv(),
        ensures
            final(self)@ == old(self)@.after_cancel_delete(),
            final(self).inv(),
    {
        self.delete_mode = false;
        self.delete_target = None;
        self.input_log.clear();
    }

    /// Takes the typed name as the terminal emulator; the configuration is
    /// then to be saved and the launcher restarted.
    pub fn confirm_shell(&mut self)
        requires
            old(self).inv(),
        ensures
            final(self)@ == old(self)@.after_confirm_shell(),
            final(self).inv(),
    {
        let mut name = String::new();
        std::mem::swap(&mut name, &mut self.name);
        self.config.add_shell(name);
        self.needs_shell = false;
    }

    /// Replaces the typed name (of a new entry, or of the terminal emulator).
    pub fn set_name(&mut self, name: String)
        ensures
            final(self)@ == (AppView { name: name@, ..old(self)@ }),
    {
        self.name = name;
    }

    /// Replaces the typed command or path of a new entry.
    pub fn set_path(&mut self, path: String)
        ensures
            final(self)@ == (AppView { path: path@, ..old(self)@ }),
    {
        self.path = path;
    }

    /// Makes the new entry run its path as a command in a terminal.
    pub fn choose_terminal(&mut self)
        ensures
            final(self)@ == (AppView { mode: seq!['t'], ..old(self)@ }),
    {
        proof {
            reveal_strlit("t");
            assert("t"@ =~= seq!['t']);
        }
        self.mode = "t".to_owned();
    }

    /// Makes the new entry open its path with the default program.
    pub fn choose_opener(&mut self)
        ensures
            final(self)@ == (AppView { mode: seq!['x'], ..old(self)@ }),
    {
        proof {
            reveal_strlit("x");
            assert("x"@ =~= seq!['x']);
        }
        self.mode = "x".to_owned();
    }

    /// The configuration.
    pub fn config(&self) -> (c: &Config)
        ensures
            c@ == self@.config,
    {
        &self.config
    }

    /// The typed tokens.
    pub fn input_log(&self) -> (log: &Vec<Token>)
        ensures
            log@ == self@.log,
    {
        &self.input_log
    }

    /// Whether the window stays open.
    pub fn is_open(&self) -> (b: bool)
        ensures
            b == self@.open,
    {
        self.open
    }

    /// Whether the window has the keyboard focus.
    pub fn is_focused(&self) -> (b: bool)
        ensures
            b == self@.focused,
    {
        self.focused
    }

    /// Whether a new entry is being added.
    pub fn in_add_mode(&self) -> (b: bool)
        ensures
            b == self@.add_in,
    {
        self.add_in
    }

    /// Whether an entry is being chosen for deletion.
    pub fn in_delete_mode(&self) -> (b: bool)
        ensures
            b == self@.delete_mode,
    {
        self.delete_mode
    }

    /// The global index of the entry marked for deletion.
    pub fn delete_target(&self) -> (t: Option<usize>)
        ensures
            t == self@.delete_target,
    {
        self.delete_target
    }

    /// Whether the warning about an incomplete new entry is shown.
    pub fn warning(&self) -> (b: bool)
        ensures
            b == self@.warn,
    {
        self.warn
    }

    /// Whether a terminal emulator must still be chosen.
    pub fn needs_shell(&self) -> (b: bool)
        ensures
            b == self@.needs_shell,
    {
        self.needs_shell
    }

    /// The typed name.
    pub fn name(&self) -> (s: &String)
        ensures
            s@ == self@.name,
    {
        &self.name
    }

    /// The typed command or path.
    pub fn path(&self) -> (s: &String)
        ensures
            s@ == self@.path,
    {
        &self.path
    }

    /// The chosen launch mode of the new entry.
    pub fn mode(&self) -> (s: &String)
        ensures
            s@ == self@.mode,
    {
        &self.mode
    }

    /// The deadline of the clearing timer, in milliseconds.
    pub fn log_timer(&self) -> (t: Option<u64>)
        ensures
            t == self@.log_timer,
    {
        self.log_timer
    }

    /// The number of entries at start.
    pub fn max_input_len(&self) -> (n: usize)
        ensures
            n == self@.max_input_len,
    {
        self.max_input_len
    }
}

} // verus!
