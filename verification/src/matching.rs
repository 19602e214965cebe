use vstd::prelude::*;

use crate::token::Token;

verus! {

/// The colour in which a key or a name of a shortcut entry is shown.
#[derive(PartialEq, Eq, Structural, Clone, Copy, Debug)]
pub enum Color {
    /// Not typed yet.
    White,
    /// Typed and matching.
    Green,
    /// The typed sequence cannot select this entry.
    Gray,
}

/// Whether position `k` of the typed sequence holds the key text `key`.
pub open spec fn key_hit(typed: Seq<Token>, key: Seq<char>, k: int) -> bool {
    typed.len() > k && typed[k].text() == key
}

/// The effect of comparing position `number` of the typed sequence with the
/// key text of that column: `colors[0]` is the entry's name, `colors[i + 1]`
/// its key in column `i`.
pub open spec fn spec_input_rx(
    typed: Seq<Token>,
    key: Seq<char>,
    colors: Seq<Color>,
    number: int,
) -> Seq<Color> {
    if key_hit(typed, key, number) {
        if forall|i: int| 1 <= i <= number ==> colors[i] == Color::Green {
            colors.update(number + 1, Color::Green)
        } else {
            Seq::new(colors.len(), |i: int| if i <= number + 1 { Color::Gray } else { colors[i] })
        }
    } else if typed.len() > number {
        Seq::new(colors.len(), |i: int| Color::Gray)
    } else if colors[number] == Color::Gray {
        colors.update(number + 1, Color::Gray)
    } else {
        colors.update(number + 1, Color::White)
    }
}

/// The number of leading columns, among the first `k`, whose keys the typed
/// sequence matches one after another.
pub open spec fn matched_prefix(typed: Seq<Token>, keys: Seq<Seq<char>>, k: nat) -> nat
    decreases k,
{
    if k == 0 {
        0
    } else {
        let p = matched_prefix(typed, keys, (k - 1) as nat);
        if p == k - 1 && key_hit(typed, keys[k - 1], k - 1) {
            k
        } else {
            p
        }
    }
}

/// The typed sequence contradicts one of the first `k` keys: it has a token
/// at the first position where it does not match.
pub open spec fn mismatched(typed: Seq<Token>, keys: Seq<Seq<char>>, k: nat) -> bool {
    let p = matched_prefix(typed, keys, k);
    p < k && typed.len() > p
}

/// The colours of an entry (name first, then `len - 1` keys) once the first
/// `k` columns have been compared: all grey after a mismatch, otherwise the
/// matched keys green and everything else white.
pub open spec fn colors_after(typed: Seq<Token>, keys: Seq<Seq<char>>, len: nat, k: nat) -> Seq<
    Color,
> {
    let p = matched_prefix(typed, keys, k);
    if mismatched(typed, keys, k) {
        Seq::new(len, |i: int| Color::Gray)
    } else {
        Seq::new(len, |i: int| if 1 <= i <= p { Color::Green } else { Color::White })
    }
}

/// The colours of an entry with the key texts `keys`, given the typed sequence.
pub open spec fn row_colors_spec(typed: Seq<Token>, keys: Seq<Seq<char>>) -> Seq<Color> {
    colors_after(typed, keys, keys.len() + 1, keys.len())
}

/// The typed sequence selects the entry: it starts with all the entry's keys.
pub open spec fn row_complete(typed: Seq<Token>, keys: Seq<Seq<char>>) -> bool {
    matched_prefix(typed, keys, keys.len()) == keys.len()
}

pub proof fn lemma_matched_prefix_bound(typed: Seq<Token>, keys: Seq<Seq<char>>, k: nat)
    ensures
        matched_prefix(typed, keys, k) <= k,
        matched_prefix(typed, keys, k) == k ==> typed.len() >= k,
        forall|i: int| 0 <= i < matched_prefix(typed, keys, k) ==> key_hit(typed, keys[i], i),
    decreases k,
{
    if k > 0 {
        lemma_matched_prefix_bound(typed, keys, (k - 1) as nat);
    }
}

/// A complete match means each of the entry's keys is typed at its position.
pub proof fn lemma_complete_means_prefix(typed: Seq<Token>, keys: Seq<Seq<char>>)
    ensures
        row_complete(typed, keys) <==> (typed.len() >= keys.len() && forall|i: int|
            0 <= i < keys.len() ==> #[trigger] typed[i].text() == keys[i]),
{
    lemma_matched_prefix_bound(typed, keys, keys.len());
    if typed.len() >= keys.len() && forall|i: int|
        0 <= i < keys.len() ==> #[trigger] typed[i].text() == keys[i] {
        lemma_all_hits_complete(typed, keys, keys.len());
    }
}

proof fn lemma_all_hits_complete(typed: Seq<Token>, keys: Seq<Seq<char>>, k: nat)
    requires
        k <= keys.len(),
        typed.len() >= k,
        forall|i: int| 0 <= i < k ==> #[trigger] typed[i].text() == keys[i],
    ensures
        matched_prefix(typed, keys, k) == k,
    decreases k,
{
    if k > 0 {
        lemma_all_hits_complete(typed, keys, (k - 1) as nat);
        assert(typed[k - 1].text() == keys[k - 1]);
    }
}

/// Comparing one more column moves the colours from `colors_after(k)` to
/// `colors_after(k + 1)`.
pub proof fn lemma_input_rx_step(typed: Seq<Token>, keys: Seq<Seq<char>>, len: nat, k: nat)
    requires
        k + 1 < len,
        k < keys.len(),
    ensures
        spec_input_rx(typed, keys[k as int], colors_after(typed, keys, len, k), k as int)
            == colors_after(typed, keys, len, k + 1),
{
    let s = colors_after(typed, keys, len, k);
    let p = matched_prefix(typed, keys, k);
    lemma_matched_prefix_bound(typed, keys, k);
    let r = spec_input_rx(typed, keys[k as int], s, k as int);
    let t = colors_after(typed, keys, len, k + 1);
    assert(matched_prefix(typed, keys, k + 1) == (if p == k && key_hit(
        typed,
        keys[k as int],
        k as int,
    ) {
        k + 1
    } else {
        p
    }));
    if mismatched(typed, keys, k) {
        assert(k >= 1);
        assert(s[1] == Color::Gray);
        assert(r =~= t);
    } else if p == k {
        if key_hit(typed, keys[k as int], k as int) {
            assert(forall|i: int| 1 <= i <= k ==> s[i] == Color::Green);
            assert(r =~= t);
        } else if typed.len() > k {
            assert(r =~= t);
        } else {
            assert(s[k as int] != Color::Gray);
            assert(r =~= t);
        }
    } else {
        assert(s[k as int] == Color::White);
        assert(r =~= t);
    }
}

/// Compares position `number` of the typed sequence `input` with the key
/// `column[xi]`, and updates the colours of the entry: the key of the column
/// turns green when it matches and every earlier key is green; a match after a
/// broken prefix, or a mismatch, greys the entry; with nothing typed there the
/// column inherits grey or turns white.
pub fn input_rx(xi: usize, input: &Vec<Token>, column: &Vec<String>, xx: &mut Vec<Color>, number: usize)
    requires
        number + 1 < old(xx)@.len(),
        input@.len() > number ==> xi < column@.len(),
    ensures
        final(xx)@ == spec_input_rx(input@, column@[xi as int]@, old(xx)@, number as int),
{
    let ghost typed = input@;
    let ghost colors = old(xx)@;
    let len = xx.len();
    if input.len() > number && input[number].is_text_of(&column[xi]) {
        let mut all_green = true;
        let mut i: usize = 1;
        while i <= number
            invariant
                1 <= i <= number + 1,
                len == colors.len(),
                xx@ == colors,
                number + 1 < colors.len(),
                all_green == (forall|j: int| 1 <= j < i ==> colors[j] == Color::Green),
            decreases number + 1 - i,
        {
            if xx[i] != Color::Green {
                all_green = false;
            }
            i = i + 1;
        }
        if all_green {
            xx.set(number + 1, Color::Green);
        } else {
            let mut j: usize = 0;
            while j <= number + 1
                invariant
                    0 <= j <= number + 2,
                    len == colors.len(),
                    number + 1 < colors.len(),
                    xx@.len() == colors.len(),
                    forall|m: int| 0 <= m < j ==> xx@[m] == Color::Gray,
                    forall|m: int| j <= m < colors.len() ==> xx@[m] == colors[m],
                decreases number + 2 - j,
            {
                xx.set(j, Color::Gray);
                j = j + 1;
            }
            assert(xx@ =~= spec_input_rx(typed, column@[xi as int]@, colors, number as int));
        }
    } else if input.len() > number {
        let mut j: usize = 0;
        while j < len
            invariant
                0 <= j <= len,
                len == colors.len(),
                xx@.len() == len,
                forall|m: int| 0 <= m < j ==> xx@[m] == Color::Gray,
            decreases len - j,
        {
            xx.set(j, Color::Gray);
            j = j + 1;
        }
        assert(xx@ =~= spec_input_rx(typed, column@[xi as int]@, colors, number as int));
    } else if xx[number] == Color::Gray {
        xx.set(number + 1, Color::Gray);
    } else {
        xx.set(number + 1, Color::White);
    }
}

/// The key texts of entry `row`, one per column.
pub open spec fn row_keys(columns: Seq<Seq<Seq<char>>>, row: int) -> Seq<Seq<char>> {
    Seq::new(columns.len(), |k: int| columns[k][row])
}

/// The colours of entry `row` of a group whose key columns are `columns`
/// (name first, then one per column), computed column by column.
pub fn row_colors(input: &Vec<Token>, columns: &Vec<Vec<String>>, row: usize) -> (colors: Vec<Color>)
    requires
        columns@.len() < usize::MAX,
        forall|k: int| 0 <= k < columns@.len() && input@.len() > k ==> row < #[trigger] columns@[k]@.len(),
    ensures
        colors@ == row_colors_spec(input@, row_keys(columns.deep_view(), row as int)),
{
    let w = columns.len();
    let ghost keys = row_keys(columns.deep_view(), row as int);
    let mut xx: Vec<Color> = Vec::new();
    let mut i: usize = 0;
    while i <= w
        invariant
            0 <= i <= w + 1,
            w < usize::MAX,
            xx@.len() == i,
            forall|m: int| 0 <= m < i ==> xx@[m] == Color::White,
        decreases w + 1 - i,
    {
        xx.push(Color::White);
        i = i + 1;
    }
    assert(xx@ =~= colors_after(input@, keys, (w + 1) as nat, 0));
    let mut k: usize = 0;
    while k < w
        invariant
            0 <= k <= w,
            w == columns@.len(),
            w < usize::MAX,
            keys == row_keys(columns.deep_view(), row as int),
            forall|c: int| 0 <= c < columns@.len() && input@.len() > c ==> row < #[trigger] columns@[c]@.len(),
            xx@ == colors_after(input@, keys, (w + 1) as nat, k as nat),
        decreases w - k,
    {
        proof {
            lemma_input_rx_step(input@, keys, (w + 1) as nat, k as nat);
            assert(columns.deep_view()[k as int] == columns@[k as int].deep_view());
            if input@.len() > k {
                assert(keys[k as int] == columns@[k as int]@[row as int]@);
            }
        }
        input_rx(row, input, &columns[k], &mut xx, k);
        k = k + 1;
    }
    xx
}

/// What the computed colours say about the entry: its keys are all green and
/// the typed sequence is at least as long exactly when the sequence selects
/// the entry, and its name is grey exactly when the sequence rules it out.
pub proof fn lemma_colors_verdict(typed: Seq<Token>, keys: Seq<Seq<char>>)
    requires
        keys.len() >= 1,
    ensures
        (typed.len() >= keys.len() && forall|j: int|
            1 <= j <= keys.len() ==> #[trigger] row_colors_spec(typed, keys)[j] == Color::Green)
            <==> row_complete(typed, keys),
        (row_colors_spec(typed, keys)[0] == Color::Gray) <==> mismatched(typed, keys, keys.len()),
{
    let w = keys.len();
    let c = row_colors_spec(typed, keys);
    let p = matched_prefix(typed, keys, w);
    lemma_matched_prefix_bound(typed, keys, w);
    if mismatched(typed, keys, w) {
        assert(c[1] == Color::Gray);
    } else if p < w {
        assert(c[p + 1 as int] == Color::White);
    }
}

proof fn lemma_prefix_stops_at_miss(typed: Seq<Token>, keys: Seq<Seq<char>>, k: nat, p: int)
    requires
        0 <= p < k,
        !key_hit(typed, keys[p], p),
    ensures
        matched_prefix(typed, keys, k) <= p,
    decreases k,
{
    lemma_matched_prefix_bound(typed, keys, (k - 1) as nat);
    if p < k - 1 {
        lemma_prefix_stops_at_miss(typed, keys, (k - 1) as nat, p);
    }
}

proof fn lemma_prefix_stays(typed: Seq<Token>, keys: Seq<Seq<char>>, k: nat)
    requires
        typed.len() <= k,
        matched_prefix(typed, keys, typed.len()) == typed.len(),
    ensures
        matched_prefix(typed, keys, k) == typed.len(),
    decreases k,
{
    if k > typed.len() {
        lemma_prefix_stays(typed, keys, (k - 1) as nat);
    }
}

/// The colours after comparing all `n` columns in turn, starting from all
/// white: with `m` the smaller of `n` and the number of typed tokens, a typed
/// token among the first `m` that differs from its column's key greys the
/// whole entry; otherwise the name stays white, the first `m` keys are green
/// and the others white.
pub proof fn lemma_row_colors_closed_form(typed: Seq<Token>, keys: Seq<Seq<char>>)
    ensures
        ({
            let n = keys.len() as int;
            let m = if typed.len() < n {
                typed.len() as int
            } else {
                n
            };
            let c = row_colors_spec(typed, keys);
            &&& c.len() == n + 1
            &&& (exists|p: int| 0 <= p < m && #[trigger] typed[p].text() != keys[p]) ==> forall|
                j: int,
            | 0 <= j <= n ==> #[trigger] c[j] == Color::Gray
            &&& (forall|p: int| 0 <= p < m ==> #[trigger] typed[p].text() == keys[p]) ==> (c[0]
                == Color::White && (forall|j: int| 1 <= j <= m ==> #[trigger] c[j] == Color::Green)
                && (forall|j: int| m < j <= n ==> #[trigger] c[j] == Color::White))
        }),
{
    let n = keys.len() as int;
    let m = if typed.len() < n {
        typed.len() as int
    } else {
        n
    };
    lemma_matched_prefix_bound(typed, keys, n as nat);
    if exists|p: int| 0 <= p < m && #[trigger] typed[p].text() != keys[p] {
        let p = choose|p: int| 0 <= p < m && #[trigger] typed[p].text() != keys[p];
        lemma_prefix_stops_at_miss(typed, keys, n as nat, p);
    }
    if forall|p: int| 0 <= p < m ==> #[trigger] typed[p].text() == keys[p] {
        lemma_all_hits_complete(typed, keys, m as nat);
        if m < n {
            lemma_prefix_stays(typed, keys, n as nat);
        }
    }
}

} // verus!
