use vstd::prelude::*;

verus! {

/// How many groups of shortcut entries there are.
pub const GROUP_COUNT: usize = 5;

/// How many keys the entries of the first group have; each further group has
/// one key more.
pub const MIN_KEYS: usize = 3;

/// The entries of one group, stored column by column: `keys[k][row]` is the
/// key in column `k` of entry `row`, `names[row]` its name, `paths[row]` the
/// command or file it launches and `modes[row]` how (`"t"`: run the command
/// in a terminal; anything else: open the file with the default program).
pub struct EntryGroup {
    pub keys: Vec<Vec<String>>,
    pub names: Vec<String>,
    pub paths: Vec<String>,
    pub modes: Vec<String>,
}

/// The launcher's configuration: the groups of entries with 3, 4, 5, 6 and 7
/// keys, in this order, and the terminal emulators (the first one is used).
pub struct Config {
    pub groups: Vec<EntryGroup>,
    pub shell: Vec<String>,
}

/// The contents of an entry group.
pub struct GroupView {
    pub keys: Seq<Seq<Seq<char>>>,
    pub names: Seq<Seq<char>>,
    pub paths: Seq<Seq<char>>,
    pub modes: Seq<Seq<char>>,
}

/// The contents of a configuration.
pub struct ConfigView {
    pub groups: Seq<GroupView>,
    pub shell: Seq<Seq<char>>,
}

impl View for EntryGroup {
    type V = GroupView;

    open spec fn view(&self) -> GroupView {
        GroupView {
            keys: self.keys.deep_view(),
            names: self.names.deep_view(),
            paths: self.paths.deep_view(),
            modes: self.modes.deep_view(),
        }
    }
}

impl View for Config {
    type V = ConfigView;

    open spec fn view(&self) -> ConfigView {
        ConfigView {
            groups: Seq::new(self.groups@.len(), |g: int| self.groups@[g]@),
            shell: self.shell.deep_view(),
        }
    }
}

impl GroupView {
    /// Every column can show every entry: each key column holds at least as
    /// many keys as there are names.
    pub open spec fn columns_cover_names(self) -> bool {
        forall|k: int| 0 <= k < self.keys.len() ==> #[trigger] self.keys[k].len() >= self.names.len()
    }

    /// All columns hold exactly one element per entry.
    pub open spec fn uniform(self) -> bool {
        &&& forall|k: int| 0 <= k < self.keys.len() ==> #[trigger] self.keys[k].len() == self.names.len()
        &&& self.paths.len() == self.names.len()
        &&& self.modes.len() == self.names.len()
    }

    /// Every column of the group has an element at index `idx`.
    pub open spec fn has_index(self, idx: int) -> bool {
        &&& 0 <= idx
        &&& forall|k: int| 0 <= k < self.keys.len() ==> idx < #[trigger] self.keys[k].len()
        &&& idx < self.names.len()
        &&& idx < self.paths.len()
        &&& idx < self.modes.len()
    }

    /// The group with one more entry at the end of every column.
    pub open spec fn with_row(
        self,
        keys: Seq<Seq<char>>,
        name: Seq<char>,
        path: Seq<char>,
        mode: Seq<char>,
    ) -> GroupView {
        GroupView {
            keys: Seq::new(self.keys.len(), |k: int| self.keys[k].push(keys[k])),
            names: self.names.push(name),
            paths: self.paths.push(path),
            modes: self.modes.push(mode),
        }
    }

    /// The group with the element at index `idx` taken out of every column.
    pub open spec fn without_row(self, idx: int) -> GroupView {
        GroupView {
            keys: Seq::new(self.keys.len(), |k: int| self.keys[k].remove(idx)),
            names: self.names.remove(idx),
            paths: self.paths.remove(idx),
            modes: self.modes.remove(idx),
        }
    }
}

/// The number of entries in the groups before group `g`.
pub open spec fn rows_before(groups: Seq<GroupView>, g: int) -> nat
    decreases g,
{
    if g <= 0 {
        0
    } else {
        rows_before(groups, g - 1) + groups[g - 1].names.len()
    }
}

/// The first group, from group `g` on, whose entries reach past the global
/// entry index `t` (entries numbered across the groups in order).
pub open spec fn group_of_index(groups: Seq<GroupView>, t: int, g: int) -> Option<int>
    decreases groups.len() - g,
{
    if g < 0 || g >= groups.len() {
        None
    } else if t < rows_before(groups, g + 1) {
        Some(g)
    } else {
        group_of_index(groups, t, g + 1)
    }
}

impl ConfigView {
    /// The shape every configuration has: five groups with 3 to 7 key columns,
    /// each key column covering the names, and fewer entries than `usize::MAX`.
    pub open spec fn wf(self) -> bool {
        &&& self.groups.len() == GROUP_COUNT
        &&& forall|g: int|
            0 <= g < GROUP_COUNT ==> (#[trigger] self.groups[g]).keys.len() == MIN_KEYS + g
                && self.groups[g].columns_cover_names()
        &&& self.total_rows() < usize::MAX
    }

    /// Every column of every group holds exactly one element per entry.
    pub open spec fn uniform(self) -> bool {
        forall|g: int| 0 <= g < self.groups.len() ==> (#[trigger] self.groups[g]).uniform()
    }

    /// The number of entries of all groups.
    pub open spec fn total_rows(self) -> nat {
        rows_before(self.groups, self.groups.len() as int)
    }

    /// The configuration with an entry appended to group `g`.
    pub open spec fn add_entry(
        self,
        g: int,
        keys: Seq<Seq<char>>,
        name: Seq<char>,
        path: Seq<char>,
        mode: Seq<char>,
    ) -> ConfigView {
        ConfigView {
            groups: self.groups.update(g, self.groups[g].with_row(keys, name, path, mode)),
            shell: self.shell,
        }
    }

    /// The configuration with index `idx` removed from every column of group `g`.
    pub open spec fn remove_entry(self, g: int, idx: int) -> ConfigView {
        ConfigView { groups: self.groups.update(g, self.groups[g].without_row(idx)), shell: self.shell }
    }

    /// The configuration with a terminal emulator appended.
    pub open spec fn add_shell(self, shell: Seq<char>) -> ConfigView {
        ConfigView { groups: self.groups, shell: self.shell.push(shell) }
    }
}

/// A configuration with five empty groups and no terminal emulator.
pub open spec fn empty_config() -> ConfigView {
    ConfigView {
        groups: Seq::new(
            GROUP_COUNT as nat,
            |g: int|
                GroupView {
                    keys: Seq::new((MIN_KEYS + g) as nat, |k: int| Seq::<Seq<char>>::empty()),
                    names: Seq::empty(),
                    paths: Seq::empty(),
                    modes: Seq::empty(),
                },
        ),
        shell: Seq::empty(),
    }
}

pub proof fn lemma_rows_before_monotone(groups: Seq<GroupView>, a: int, b: int)
    requires
        0 <= a <= b <= groups.len(),
    ensures
        rows_before(groups, a) <= rows_before(groups, b),
    decreases b - a,
{
    if a < b {
        lemma_rows_before_monotone(groups, a, b - 1);
    }
}

/// Changing one group changes only the counts that include it.
pub proof fn lemma_rows_before_update(groups: Seq<GroupView>, g: int, v: GroupView, h: int)
    requires
        0 <= g < groups.len(),
        0 <= h <= groups.len(),
    ensures
        h <= g ==> rows_before(groups.update(g, v), h) == rows_before(groups, h),
        h > g ==> rows_before(groups.update(g, v), h) == rows_before(groups, h) - groups[g].names.len()
            + v.names.len(),
    decreases h,
{
    if h > 0 {
        lemma_rows_before_update(groups, g, v, h - 1);
    }
}

pub proof fn lemma_group_of_index(groups: Seq<GroupView>, t: int, g: int)
    requires
        0 <= g <= groups.len(),
        0 <= t,
        rows_before(groups, g) <= t,
    ensures
        match group_of_index(groups, t, g) {
            Some(h) => g <= h < groups.len() && rows_before(groups, h) <= t < rows_before(
                groups,
                h + 1,
            ),
            None => t >= rows_before(groups, groups.len() as int),
        },
    decreases groups.len() - g,
{
    if g < groups.len() && t >= rows_before(groups, g + 1) {
        lemma_group_of_index(groups, t, g + 1);
    }
}

impl EntryGroup {
    /// An entry group with `width` empty key columns and no entries.
    pub fn new_empty(width: usize) -> (grp: EntryGroup)
        ensures
            grp@.keys.len() == width,
            forall|k: int| 0 <= k < width ==> (#[trigger] grp@.keys[k]).len() == 0,
            grp@.names.len() == 0,
            grp@.paths.len() == 0,
            grp@.modes.len() == 0,
    {
        let mut keys: Vec<Vec<String>> = Vec::new();
        let mut k: usize = 0;
        while k < width
            invariant
                0 <= k <= width,
                keys@.len() == k,
                forall|m: int| 0 <= m < k ==> (#[trigger] keys@[m])@.len() == 0,
            decreases width - k,
        {
            keys.push(Vec::new());
            k = k + 1;
        }
        EntryGroup { keys, names: Vec::new(), paths: Vec::new(), modes: Vec::new() }
    }

    /// Appends an entry: `keys[k]` to key column `k`, and the name, path and
    /// mode to theirs.
    pub fn push_row(&mut self, keys: &Vec<String>, name: String, path: String, mode: String)
        requires
            keys@.len() == old(self)@.keys.len(),
        ensures
            final(self)@ == old(self)@.with_row(keys.deep_view(), name@, path@, mode@),
    {
        let ghost old_keys = old(self)@.keys;
        let ghost old_names = self.names@;
        let ghost old_paths = self.paths@;
        let ghost old_modes = self.modes@;
        let mut rest: Vec<Vec<String>> = Vec::new();
        std::mem::swap(&mut rest, &mut self.keys);
        let n = rest.len();
        let mut k: usize = 0;
        while k < n
            invariant
                0 <= k <= n,
                n == old_keys.len(),
                keys@.len() == n,
                rest@.len() == n - k,
                forall|i: int| 0 <= i < n - k ==> (#[trigger] rest@[i]).deep_view() == old_keys[k + i],
                self.keys@.len() == k,
                self.names@ == old_names,
                self.paths@ == old_paths,
                self.modes@ == old_modes,
                forall|i: int|
                    0 <= i < k ==> (#[trigger] self.keys@[i]).deep_view() == old_keys[i].push(
                        keys@[i]@,
                    ),
            decreases n - k,
        {
            let ghost before = rest@;
            let mut col = rest.remove(0);
            assert(col.deep_view() == old_keys[k as int]);
            let key = keys[k].clone();
            col.push(key);
            assert(col.deep_view() =~= old_keys[k as int].push(keys@[k as int]@));
            self.keys.push(col);
            assert forall|i: int| 0 <= i < n - (k + 1) implies (#[trigger] rest@[i]).deep_view()
                == old_keys[(k + 1) + i] by {
                assert(rest@[i] == before[i + 1]);
            }
            k = k + 1;
        }
        self.names.push(name);
        self.paths.push(path);
        self.modes.push(mode);
        assert(self@.keys =~= old(self)@.with_row(keys.deep_view(), name@, path@, mode@).keys);
        assert(self@.names =~= old(self)@.names.push(name@));
        assert(self@.paths =~= old(self)@.paths.push(path@));
        assert(self@.modes =~= old(self)@.modes.push(mode@));
    }

    /// Takes the element at index `idx` out of every column.
    pub fn remove_row(&mut self, idx: usize)
        requires
            old(self)@.has_index(idx as int),
        ensures
            final(self)@ == old(self)@.without_row(idx as int),
    {
        let ghost old_keys = old(self)@.keys;
        let ghost old_names = self.names@;
        let ghost old_paths = self.paths@;
        let ghost old_modes = self.modes@;
        let mut rest: Vec<Vec<String>> = Vec::new();
        std::mem::swap(&mut rest, &mut self.keys);
        let n = rest.len();
        let mut k: usize = 0;
        while k < n
            invariant
                0 <= k <= n,
                n == old_keys.len(),
                forall|i: int| 0 <= i < n ==> idx < #[trigger] old_keys[i].len(),
                rest@.len() == n - k,
                forall|i: int| 0 <= i < n - k ==> (#[trigger] rest@[i]).deep_view() == old_keys[k + i],
                self.keys@.len() == k,
                self.names@ == old_names,
                self.paths@ == old_paths,
                self.modes@ == old_modes,
                forall|i: int|
                    0 <= i < k ==> (#[trigger] self.keys@[i]).deep_view() == old_keys[i].remove(
                        idx as int,
                    ),
            decreases n - k,
        {
            let ghost before = rest@;
            let mut col = rest.remove(0);
            assert(col.deep_view() == old_keys[k as int]);
            col.remove(idx);
            assert(col.deep_view() =~= old_keys[k as int].remove(idx as int));
            self.keys.push(col);
            assert forall|i: int| 0 <= i < n - (k + 1) implies (#[trigger] rest@[i]).deep_view()
                == old_keys[(k + 1) + i] by {
                assert(rest@[i] == before[i + 1]);
            }
            k = k + 1;
        }
        self.names.remove(idx);
        self.paths.remove(idx);
        self.modes.remove(idx);
        assert(self@.keys =~= old(self)@.without_row(idx as int).keys);
        assert(self@.names =~= old(self)@.names.remove(idx as int));
        assert(self@.paths =~= old(self)@.paths.remove(idx as int));
        assert(self@.modes =~= old(self)@.modes.remove(idx as int));
    }

    /// Whether every column has an element at index `idx`.
    pub fn has_index(&self, idx: usize) -> (b: bool)
        ensures
            b == self@.has_index(idx as int),
    {
        let n = self.keys.len();
        let mut k: usize = 0;
        while k < n
            invariant
                0 <= k <= n,
                n == self@.keys.len(),
                forall|i: int| 0 <= i < k ==> idx < #[trigger] self@.keys[i].len(),
            decreases n - k,
        {
            if idx >= self.keys[k].len() {
                assert(self@.keys[k as int].len() == self.keys@[k as int]@.len());
                return false;
            }
            k = k + 1;
        }
        idx < self.names.len() && idx < self.paths.len() && idx < self.modes.len()
    }
}


/// Appending an entry keeps the shape of a configuration and counts one entry more.
pub proof fn lemma_add_entry_wf(
    c: ConfigView,
    g: int,
    keys: Seq<Seq<char>>,
    name: Seq<char>,
    path: Seq<char>,
    mode: Seq<char>,
)
    requires
        c.wf(),
        0 <= g < GROUP_COUNT,
        keys.len() == c.groups[g].keys.len(),
        c.total_rows() + 1 < usize::MAX,
    ensures
        c.add_entry(g, keys, name, path, mode).wf(),
        c.add_entry(g, keys, name, path, mode).total_rows() == c.total_rows() + 1,
{
    let d = c.add_entry(g, keys, name, path, mode);
    lemma_rows_before_update(c.groups, g, c.groups[g].with_row(keys, name, path, mode), 5);
    assert forall|h: int| 0 <= h < GROUP_COUNT implies (#[trigger] d.groups[h]).keys.len() == MIN_KEYS
        + h && d.groups[h].columns_cover_names() by {
        if h == g {
            assert forall|k: int| 0 <= k < d.groups[h].keys.len() implies #[trigger] d.groups[h].keys[k].len()
                >= d.groups[h].names.len() by {
                assert(c.groups[g].keys[k].len() >= c.groups[g].names.len());
            }
        }
    }
}

/// Removing an index from every column of a group keeps the shape of a
/// configuration and counts one entry less.
pub proof fn lemma_remove_entry_wf(c: ConfigView, g: int, idx: int)
    requires
        c.wf(),
        0 <= g < GROUP_COUNT,
        c.groups[g].has_index(idx),
    ensures
        c.remove_entry(g, idx).wf(),
        c.remove_entry(g, idx).total_rows() + 1 == c.total_rows(),
{
    let d = c.remove_entry(g, idx);
    lemma_rows_before_update(c.groups, g, c.groups[g].without_row(idx), 5);
    assert forall|h: int| 0 <= h < GROUP_COUNT implies (#[trigger] d.groups[h]).keys.len() == MIN_KEYS
        + h && d.groups[h].columns_cover_names() by {
        if h == g {
            assert forall|k: int| 0 <= k < d.groups[h].keys.len() implies #[trigger] d.groups[h].keys[k].len()
                >= d.groups[h].names.len() by {
                assert(c.groups[g].keys[k].len() >= c.groups[g].names.len());
                assert(idx < c.groups[g].keys[k].len());
            }
        }
    }
}

/// Deleting the entry that was just appended to a group whose columns all
/// hold one element per entry gives the configuration back.
pub proof fn lemma_remove_undoes_add(
    c: ConfigView,
    g: int,
    keys: Seq<Seq<char>>,
    name: Seq<char>,
    path: Seq<char>,
    mode: Seq<char>,
)
    requires
        0 <= g < c.groups.len(),
        c.groups[g].uniform(),
        keys.len() == c.groups[g].keys.len(),
    ensures
        c.add_entry(g, keys, name, path, mode).remove_entry(g, c.groups[g].names.len() as int) == c,
{
    let grp = c.groups[g];
    let n = grp.names.len() as int;
    let back = grp.with_row(keys, name, path, mode).without_row(n);
    assert forall|k: int| 0 <= k < grp.keys.len() implies #[trigger] back.keys[k] == grp.keys[k] by {
        assert(grp.keys[k].len() == n);
        assert(grp.keys[k].push(keys[k]).remove(n) =~= grp.keys[k]);
    }
    assert(back.keys =~= grp.keys);
    assert(back.names =~= grp.names);
    assert(back.paths =~= grp.paths);
    assert(back.modes =~= grp.modes);
    assert(back == grp);
    assert(c.add_entry(g, keys, name, path, mode).remove_entry(g, n).groups =~= c.groups);
}

/// Appending an entry keeps one element per entry in every column.
pub proof fn lemma_add_entry_uniform(
    c: ConfigView,
    g: int,
    keys: Seq<Seq<char>>,
    name: Seq<char>,
    path: Seq<char>,
    mode: Seq<char>,
)
    requires
        c.uniform(),
        0 <= g < c.groups.len(),
        keys.len() == c.groups[g].keys.len(),
    ensures
        c.add_entry(g, keys, name, path, mode).uniform(),
{
    let d = c.add_entry(g, keys, name, path, mode);
    assert forall|h: int| 0 <= h < d.groups.len() implies (#[trigger] d.groups[h]).uniform() by {
        if h == g {
            assert(c.groups[g].uniform());
            assert forall|k: int| 0 <= k < d.groups[h].keys.len() implies #[trigger] d.groups[h].keys[k].len()
                == d.groups[h].names.len() by {
                assert(c.groups[g].keys[k].len() == c.groups[g].names.len());
            }
        } else {
            assert(c.groups[h].uniform());
        }
    }
}

/// Taking an entry out of a group keeps one element per entry in every column.
pub proof fn lemma_remove_entry_uniform(c: ConfigView, g: int, idx: int)
    requires
        c.uniform(),
        0 <= g < c.groups.len(),
        0 <= idx < c.groups[g].names.len(),
    ensures
        c.remove_entry(g, idx).uniform(),
        c.groups[g].has_index(idx),
{
    let d = c.remove_entry(g, idx);
    assert(c.groups[g].uniform());
    assert forall|k: int| 0 <= k < c.groups[g].keys.len() implies idx < #[trigger] c.groups[g].keys[k].len() by {}
    assert forall|h: int| 0 <= h < d.groups.len() implies (#[trigger] d.groups[h]).uniform() by {
        if h == g {
            assert forall|k: int| 0 <= k < d.groups[h].keys.len() implies #[trigger] d.groups[h].keys[k].len()
                == d.groups[h].names.len() by {
                assert(c.groups[g].keys[k].len() == c.groups[g].names.len());
            }
        } else {
            assert(c.groups[h].uniform());
        }
    }
}

/// The global index `rows_before(g) + i` of entry `i` of group `g` falls in group `g`.
pub proof fn lemma_group_of_entry(groups: Seq<GroupView>, g: int, i: int)
    requires
        0 <= g < groups.len(),
        0 <= i < groups[g].names.len(),
    ensures
        group_of_index(groups, rows_before(groups, g) + i, 0) == Some(g),
{
    let t = rows_before(groups, g) + i;
    lemma_group_of_index(groups, t, 0);
    lemma_rows_before_monotone(groups, g + 1, groups.len() as int);
    match group_of_index(groups, t, 0) {
        Some(h) => {
            if h < g {
                lemma_rows_before_monotone(groups, h + 1, g);
            } else if h > g {
                lemma_rows_before_monotone(groups, g + 1, h);
            }
        },
        None => {},
    }
}

impl Config {
    /// A configuration with five empty groups and no terminal emulator.
    pub fn empty() -> (c: Config)
        ensures
            c@ == empty_config(),
            c@.wf(),
    {
        let mut groups: Vec<EntryGroup> = Vec::new();
        let mut g: usize = 0;
        while g < GROUP_COUNT
            invariant
                0 <= g <= GROUP_COUNT,
                groups@.len() == g,
                forall|h: int| 0 <= h < g ==> (#[trigger] groups@[h])@ == empty_config().groups[h],
            decreases GROUP_COUNT - g,
        {
            let grp = EntryGroup::new_empty(MIN_KEYS + g);
            assert forall|k: int| 0 <= k < grp@.keys.len() implies #[trigger] grp@.keys[k]
                == empty_config().groups[g as int].keys[k] by {
                assert(grp@.keys[k] =~= Seq::<Seq<char>>::empty());
            }
            assert(grp@.keys =~= empty_config().groups[g as int].keys);
            assert(grp@.names =~= Seq::<Seq<char>>::empty());
            assert(grp@.paths =~= Seq::<Seq<char>>::empty());
            assert(grp@.modes =~= Seq::<Seq<char>>::empty());
            groups.push(grp);
            g = g + 1;
        }
        let c = Config { groups, shell: Vec::new() };
        assert(c@.groups =~= empty_config().groups);
        assert(c@.shell =~= empty_config().shell);
        proof {
            let e = empty_config();
            assert(rows_before(e.groups, 5) == 0) by {
                reveal_with_fuel(rows_before, 6);
            }
        }
        c
    }

    /// Whether the configuration has the shape that the launcher needs: five
    /// groups with 3 to 7 key columns that each cover the group's names, and
    /// fewer entries in all than `usize::MAX`.
    pub fn is_well_formed(&self) -> (b: bool)
        ensures
            b == self@.wf(),
    {
        if self.groups.len() != GROUP_COUNT {
            return false;
        }
        let mut total: usize = 0;
        let mut g: usize = 0;
        while g < GROUP_COUNT
            invariant
                0 <= g <= GROUP_COUNT,
                self@.groups.len() == GROUP_COUNT,
                total == rows_before(self@.groups, g as int),
                total < usize::MAX,
                forall|h: int|
                    0 <= h < g ==> (#[trigger] self@.groups[h]).keys.len() == MIN_KEYS + h
                        && self@.groups[h].columns_cover_names(),
            decreases GROUP_COUNT - g,
        {
            let grp = &self.groups[g];
            assert(self@.groups[g as int] == grp@);
            if grp.keys.len() != MIN_KEYS + g {
                return false;
            }
            let n = grp.names.len();
            let mut k: usize = 0;
            while k < grp.keys.len()
                invariant
                    0 <= k <= grp@.keys.len(),
                    g < GROUP_COUNT,
                    self@.groups.len() == GROUP_COUNT,
                    grp@ == self@.groups[g as int],
                    n == grp@.names.len(),
                    forall|m: int| 0 <= m < k ==> #[trigger] grp@.keys[m].len() >= n,
                decreases grp@.keys.len() - k,
            {
                assert(grp@.keys[k as int].len() == grp.keys@[k as int]@.len());
                if grp.keys[k].len() < n {
                    assert(!self@.groups[g as int].columns_cover_names());
                    assert(!self@.wf()) by {
                        if self@.wf() {
                            assert(self@.groups[g as int].columns_cover_names());
                        }
                    }
                    return false;
                }
                k = k + 1;
            }
            if n >= usize::MAX - total {
                proof {
                    lemma_rows_before_monotone(self@.groups, g + 1, 5);
                }
                return false;
            }
            total = total + n;
            g = g + 1;
        }
        true
    }

    /// The number of entries in the groups before group `g`.
    pub fn rows_before(&self, g: usize) -> (n: usize)
        requires
            self@.wf(),
            g <= GROUP_COUNT,
        ensures
            n == rows_before(self@.groups, g as int),
    {
        let mut total: usize = 0;
        let mut h: usize = 0;
        while h < g
            invariant
                0 <= h <= g <= GROUP_COUNT,
                self@.wf(),
                total == rows_before(self@.groups, h as int),
            decreases g - h,
        {
            proof {
                lemma_rows_before_monotone(self@.groups, h + 1, 5);
            }
            assert(self@.groups[h as int] == self.groups@[h as int]@);
            total = total + self.groups[h].names.len();
            h = h + 1;
        }
        total
    }

    /// The number of entries of all groups.
    pub fn total_rows(&self) -> (n: usize)
        requires
            self@.wf(),
        ensures
            n == self@.total_rows(),
    {
        self.rows_before(GROUP_COUNT)
    }

    /// The group that the global entry index `t` falls in: the first group
    /// whose entries, counted across the groups in order, reach past `t`.
    pub fn group_of_index(&self, t: usize) -> (g: Option<usize>)
        requires
            self@.wf(),
        ensures
            g == (match group_of_index(self@.groups, t as int, 0) {
                Some(h) => Some(h as usize),
                None => None::<usize>,
            }),
    {
        let mut g: usize = 0;
        while g < GROUP_COUNT
            invariant
                0 <= g <= GROUP_COUNT,
                self@.wf(),
                group_of_index(self@.groups, t as int, 0) == group_of_index(self@.groups, t as int, g as int),
            decreases GROUP_COUNT - g,
        {
            let upto = self.rows_before(g + 1);
            if t < upto {
                return Some(g);
            }
            g = g + 1;
        }
        None
    }

    /// Appends an entry to group `g`: `keys[k]` to its key column `k`, and
    /// the name, path and mode to theirs.
    pub fn add_entry(&mut self, g: usize, keys: &Vec<String>, name: String, path: String, mode: String)
        requires
            old(self)@.wf(),
            g < GROUP_COUNT,
            keys@.len() == MIN_KEYS + g,
            old(self)@.total_rows() + 1 < usize::MAX,
        ensures
            final(self)@ == old(self)@.add_entry(g as int, keys.deep_view(), name@, path@, mode@),
            final(self)@.wf(),
            final(self)@.total_rows() == old(self)@.total_rows() + 1,
    {
        let ghost before = self@;
        let mut grp = self.groups.remove(g);
        assert(grp@ == before.groups[g as int]);
        grp.push_row(keys, name, path, mode);
        self.groups.insert(g, grp);
        assert(self@.groups =~= before.add_entry(g as int, keys.deep_view(), name@, path@, mode@).groups);
        proof {
            lemma_add_entry_wf(before, g as int, keys.deep_view(), name@, path@, mode@);
        }
    }

    /// Takes index `idx` out of every column of group `g`.
    pub fn remove_entry(&mut self, g: usize, idx: usize)
        requires
            old(self)@.wf(),
            g < GROUP_COUNT,
            old(self)@.groups[g as int].has_index(idx as int),
        ensures
            final(self)@ == old(self)@.remove_entry(g as int, idx as int),
            final(self)@.wf(),
            final(self)@.total_rows() + 1 == old(self)@.total_rows(),
    {
        let ghost before = self@;
        let mut grp = self.groups.remove(g);
        assert(grp@ == before.groups[g as int]);
        grp.remove_row(idx);
        self.groups.insert(g, grp);
        assert(self@.groups =~= before.remove_entry(g as int, idx as int).groups);
        proof {
            lemma_remove_entry_wf(before, g as int, idx as int);
        }
    }

    /// Appends a terminal emulator.
    pub fn add_shell(&mut self, shell: String)
        requires
            old(self)@.wf(),
        ensures
            final(self)@ == old(self)@.add_shell(shell@),
            final(self)@.wf(),
    {
        self.shell.push(shell);
        assert(self@.shell =~= old(self)@.shell.push(shell@));
    }
}

} // verus!
