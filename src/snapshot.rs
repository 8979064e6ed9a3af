use vstd::prelude::*;
use vstd::string::StrSliceExecFns;

verus! {

/// The gas a test used: one figure, or the mean and median over fuzz runs.
#[derive(Clone, Copy, Debug, PartialEq, Eq, Structural)]
pub enum SnapshotGas {
    Standard(u64),
    Fuzz { mean: u64, median: u64 },
}

impl SnapshotGas {
    /// The figure compared between runs: the gas, or the median for fuzz runs.
    pub open spec fn gas_spec(&self) -> u64 {
        match *self {
            SnapshotGas::Standard(g) => g,
            SnapshotGas::Fuzz { median, .. } => median,
        }
    }

    /// The figure compared between runs: the gas, or the median for fuzz runs.
    pub fn gas(&self) -> (r: u64)
        ensures
            r == self.gas_spec(),
    {
        match self {
            SnapshotGas::Standard(g) => *g,
            SnapshotGas::Fuzz { median, .. } => *median,
        }
    }
}

/// One line of a gas snapshot: a test signature and its gas.
#[derive(Clone, Debug, PartialEq, Eq)]
pub struct SnapshotEntry {
    pub signature: String,
    pub gas_used: SnapshotGas,
}

/// A snapshot line that does not read as an entry.
#[derive(Clone, Debug, PartialEq, Eq)]
pub struct SnapshotParseError {
    /// The line as it was given.
    pub line: String,
}

/// The gas of a test before and after a change.
#[derive(Clone, Debug, PartialEq, Eq)]
pub struct SnapshotDiff {
    pub signature: String,
    pub source_gas_used: SnapshotGas,
    pub target_gas_used: SnapshotGas,
}

impl SnapshotDiff {
    /// How much the compared figure grew from the target to the source.
    pub fn gas_change(&self) -> (r: i128)
        ensures
            r == self.source_gas_used.gas_spec() as int - self.target_gas_used.gas_spec() as int,
    {
        self.source_gas_used.gas() as i128 - self.target_gas_used.gas() as i128
    }
}

/// A test whose gas differs from its snapshot entry, or that has none.
#[derive(Clone, Debug, PartialEq, Eq)]
pub enum SnapshotMismatch {
    Changed { signature: String, current: SnapshotGas, expected: SnapshotGas },
    Missing { signature: String },
}

/// The gas that `entries` record for `sig`: that of its last entry.
pub open spec fn recorded_gas(entries: Seq<SnapshotEntry>, sig: Seq<char>) -> Option<SnapshotGas>
    decreases entries.len(),
{
    if entries.len() == 0 {
        None
    } else if entries.last().signature@ == sig {
        Some(entries.last().gas_used)
    } else {
        recorded_gas(entries.drop_last(), sig)
    }
}

/// What a comparison of `current` with the snapshot `expected` reports, in order.
pub open spec fn mismatches(current: Seq<SnapshotEntry>, expected: Seq<SnapshotEntry>) -> Seq<(Seq<char>, Option<(SnapshotGas, SnapshotGas)>)>
    decreases current.len(),
{
    if current.len() == 0 {
        Seq::empty()
    } else {
        let e = current.last();
        let before = mismatches(current.drop_last(), expected);
        match recorded_gas(expected, e.signature@) {
            None => before.push((e.signature@, None)),
            Some(g) => if g == e.gas_used {
                before
            } else {
                before.push((e.signature@, Some((e.gas_used, g))))
            },
        }
    }
}

/// What a mismatch reports: the signature and, where there is an entry, the current and
/// the recorded gas.
pub open spec fn mismatch_view(m: SnapshotMismatch) -> (Seq<char>, Option<(SnapshotGas, SnapshotGas)>) {
    match m {
        SnapshotMismatch::Changed { signature, current, expected } => (signature@, Some((current, expected))),
        SnapshotMismatch::Missing { signature } => (signature@, None),
    }
}

fn find_recorded(expected: &Vec<SnapshotEntry>, sig: &String) -> (r: Option<SnapshotGas>)
    ensures
        r == recorded_gas(expected@, sig@),
{
    let mut i = expected.len();
    proof {
        assert(expected@.subrange(0, i as int) =~= expected@);
    }
    while i > 0
        invariant
            i <= expected@.len(),
            recorded_gas(expected@, sig@) == recorded_gas(expected@.subrange(0, i as int), sig@),
        decreases i,
    {
        assert(expected@.subrange(0, i as int).drop_last() =~= expected@.subrange(0, i - 1));
        if expected[i - 1].signature == *sig {
            return Some(expected[i - 1].gas_used);
        }
        i = i - 1;
    }
    None
}

/// Compares the current entries with a snapshot: every test whose gas differs from its
/// last entry there, and every test with no entry, in order.
pub fn check_snapshots(current: &Vec<SnapshotEntry>, expected: &Vec<SnapshotEntry>) -> (r: Vec<SnapshotMismatch>)
    ensures
        r@.map_values(|m: SnapshotMismatch| mismatch_view(m)) == mismatches(current@, expected@),
{
    let mut r: Vec<SnapshotMismatch> = Vec::new();
    let mut i: usize = 0;
    while i < current.len()
        invariant
            i <= current@.len(),
            r@.map_values(|m: SnapshotMismatch| mismatch_view(m)) == mismatches(current@.subrange(0, i as int), expected@),
        decreases current@.len() - i,
    {
        proof {
            assert(current@.subrange(0, i + 1).drop_last() =~= current@.subrange(0, i as int));
        }
        let e = &current[i];
        let ghost before = r@;
        match find_recorded(expected, &e.signature) {
            None => {
                r.push(SnapshotMismatch::Missing { signature: e.signature.clone() });
                proof {
                    assert(r@.map_values(|m: SnapshotMismatch| mismatch_view(m)) =~= before.map_values(
                        |m: SnapshotMismatch| mismatch_view(m),
                    ).push((e.signature@, None)));
                }
            },
            Some(g) => {
                if g != e.gas_used {
                    r.push(
                        SnapshotMismatch::Changed {
                            signature: e.signature.clone(),
                            current: e.gas_used,
                            expected: g,
                        },
                    );
                    proof {
                        assert(r@.map_values(|m: SnapshotMismatch| mismatch_view(m)) =~= before.map_values(
                            |m: SnapshotMismatch| mismatch_view(m),
                        ).push((e.signature@, Some((e.gas_used, g)))));
                    }
                }
            },
        }
        i = i + 1;
    }
    proof {
        assert(current@.subrange(0, i as int) =~= current@);
    }
    r
}

/// The gas changes of the current entries against a snapshot, in order; the signature of
/// the first test with no entry there, where there is one.
pub fn diff_snapshots(current: &Vec<SnapshotEntry>, expected: &Vec<SnapshotEntry>) -> (r: Result<Vec<SnapshotDiff>, String>)
    ensures
        match r {
            Ok(d) => d@.len() == current@.len() && forall|i: int|
                0 <= i < current@.len() ==> recorded_gas(expected@, #[trigger] current@[i].signature@)
                    == Some(d@[i].target_gas_used) && d@[i].source_gas_used == current@[i].gas_used
                    && d@[i].signature@ == current@[i].signature@,
            Err(sig) => exists|i: int|
                0 <= i < current@.len() && recorded_gas(expected@, #[trigger] current@[i].signature@) is None
                    && sig@ == current@[i].signature@,
        },
        (forall|i: int| 0 <= i < current@.len() ==> recorded_gas(expected@, #[trigger] current@[i].signature@) is Some)
            <==> r is Ok,
{
    let mut d: Vec<SnapshotDiff> = Vec::new();
    let mut i: usize = 0;
    while i < current.len()
        invariant
            i <= current@.len(),
            d@.len() == i,
            forall|k: int|
                0 <= k < i ==> recorded_gas(expected@, #[trigger] current@[k].signature@) == Some(
                    d@[k].target_gas_used,
                ) && d@[k].source_gas_used == current@[k].gas_used && d@[k].signature@
                    == current@[k].signature@,
        decreases current@.len() - i,
    {
        let e = &current[i];
        match find_recorded(expected, &e.signature) {
            None => {
                return Err(e.signature.clone());
            },
            Some(g) => {
                d.push(SnapshotDiff { signature: e.signature.clone(), source_gas_used: e.gas_used, target_gas_used: g });
            },
        }
        i = i + 1;
    }
    Ok(d)
}

/// How snapshot output is laid out.
#[derive(Clone, Copy, Debug, PartialEq, Eq, Structural)]
pub enum Format {
    Table,
}

pub open spec fn is_space(c: char) -> bool {
    c == ' ' || c == '\t' || c == '\n' || c == '\r' || c == '\x0b' || c == '\x0c'
}

pub open spec fn is_word(c: char) -> bool {
    ('a' <= c && c <= 'z') || ('A' <= c && c <= 'Z') || ('0' <= c && c <= '9') || c == '_'
}

pub open spec fn is_digit(c: char) -> bool {
    '0' <= c && c <= '9'
}

/// The first index from `i` on that does not hold a space.
pub open spec fn skip_spaces(s: Seq<char>, i: int) -> int
    decreases s.len() - i,
{
    if 0 <= i < s.len() && is_space(s[i]) {
        skip_spaces(s, i + 1)
    } else {
        i
    }
}

/// The first index from `i` on that does not hold a word character.
pub open spec fn skip_word(s: Seq<char>, i: int) -> int
    decreases s.len() - i,
{
    if 0 <= i < s.len() && is_word(s[i]) {
        skip_word(s, i + 1)
    } else {
        i
    }
}

/// The first index from `i` on that does not hold a digit.
pub open spec fn skip_digits(s: Seq<char>, i: int) -> int
    decreases s.len() - i,
{
    if 0 <= i < s.len() && is_digit(s[i]) {
        skip_digits(s, i + 1)
    } else {
        i
    }
}

/// The first index from `i` on that holds `)`, or the length where none does.
pub open spec fn find_close(s: Seq<char>, i: int) -> int
    decreases s.len() - i,
{
    if i < 0 || i >= s.len() {
        s.len() as int
    } else if s[i] == ')' {
        i
    } else {
        find_close(s, i + 1)
    }
}

/// The number that the decimal digits `d` write.
pub open spec fn digits_value(d: Seq<char>) -> nat
    decreases d.len(),
{
    if d.len() == 0 {
        0
    } else {
        digits_value(d.drop_last()) * 10 + (d.last() as nat - '0' as nat) as nat
    }
}

/// The number written at `i` and the index after it: one digit at least, fitting in 64
/// bits.
pub open spec fn number_at(s: Seq<char>, i: int) -> Option<(u64, int)> {
    let j = skip_digits(s, i);
    if j <= i || digits_value(s.subrange(i, j)) > u64::MAX {
        None
    } else {
        Some((digits_value(s.subrange(i, j)) as u64, j))
    }
}

pub open spec fn char_at(s: Seq<char>, i: int, c: char) -> bool {
    0 <= i < s.len() && s[i] == c
}

/// The gas part of an entry, from just inside its parenthesis at `f`: `μ: mean, ~: median)`
/// for fuzz runs, else an optional `gas:` and the gas, then `)`; spaces may follow each
/// colon and comma.
pub open spec fn gas_at(s: Seq<char>, f: int) -> Option<SnapshotGas> {
    if char_at(s, f, 'μ') {
        if !char_at(s, f + 1, ':') {
            None
        } else {
            match number_at(s, skip_spaces(s, f + 2)) {
                None => None,
                Some((mean, k)) => if !char_at(s, k, ',') {
                    None
                } else {
                    let m = skip_spaces(s, k + 1);
                    if !char_at(s, m, '~') || !char_at(s, m + 1, ':') {
                        None
                    } else {
                        match number_at(s, skip_spaces(s, m + 2)) {
                            None => None,
                            Some((median, p)) => if char_at(s, p, ')') {
                                Some(SnapshotGas::Fuzz { mean, median })
                            } else {
                                None
                            },
                        }
                    }
                },
            }
        }
    } else {
        let g = if char_at(s, f, 'g') && char_at(s, f + 1, 'a') && char_at(s, f + 2, 's')
            && char_at(s, f + 3, ':') {
            f + 4
        } else {
            f
        };
        match number_at(s, skip_spaces(s, g)) {
            None => None,
            Some((gas, k)) => if char_at(s, k, ')') {
                Some(SnapshotGas::Standard(gas))
            } else {
                None
            },
        }
    }
}

/// Where the signature of an entry starts and ends: after leading spaces, a name of word
/// characters, spaces, and a parameter list up to the first `)`.
pub open spec fn signature_span(s: Seq<char>) -> Option<(int, int)> {
    let a = skip_spaces(s, 0);
    let b = skip_word(s, a);
    let c = skip_spaces(s, b);
    if b <= a || !char_at(s, c, '(') {
        None
    } else {
        let d = find_close(s, c + 1);
        if d >= s.len() {
            None
        } else {
            Some((a, d + 1))
        }
    }
}

/// The entry that a snapshot line holds: its signature and gas, the gas in parentheses
/// after the signature and optional spaces. Anything after the closing parenthesis is
/// ignored.
pub open spec fn entry_of(s: Seq<char>) -> Option<(int, int, SnapshotGas)> {
    match signature_span(s) {
        None => None,
        Some((a, e)) => {
            let p = skip_spaces(s, e);
            if !char_at(s, p, '(') {
                None
            } else {
                match gas_at(s, p + 1) {
                    None => None,
                    Some(g) => Some((a, e, g)),
                }
            }
        },
    }
}

fn chars_of(s: &str) -> (r: Vec<char>)
    ensures
        r@ == s@,
{
    let n = s.unicode_len();
    let mut r: Vec<char> = Vec::new();
    let mut i: usize = 0;
    while i < n
        invariant
            n == s@.len(),
            i <= n,
            r@ == s@.subrange(0, i as int),
        decreases n - i,
    {
        r.push(s.get_char(i));
        i = i + 1;
    }
    assert(r@ =~= s@);
    r
}

fn skip_spaces_exec(v: &Vec<char>, i: usize) -> (r: usize)
    requires
        i <= v@.len(),
    ensures
        r == skip_spaces(v@, i as int),
        i <= r <= v@.len(),
{
    let mut j = i;
    while j < v.len() && (v[j] == ' ' || v[j] == '\t' || v[j] == '\n' || v[j] == '\r' || v[j]
        == '\x0b' || v[j] == '\x0c')
        invariant
            i <= j <= v@.len(),
            skip_spaces(v@, i as int) == skip_spaces(v@, j as int),
        decreases v.len() - j,
    {
        j = j + 1;
    }
    j
}

fn skip_word_exec(v: &Vec<char>, i: usize) -> (r: usize)
    requires
        i <= v@.len(),
    ensures
        r == skip_word(v@, i as int),
        i <= r <= v@.len(),
{
    let mut j = i;
    while j < v.len() && (('a' <= v[j] && v[j] <= 'z') || ('A' <= v[j] && v[j] <= 'Z') || ('0'
        <= v[j] && v[j] <= '9') || v[j] == '_')
        invariant
            i <= j <= v@.len(),
            skip_word(v@, i as int) == skip_word(v@, j as int),
        decreases v.len() - j,
    {
        j = j + 1;
    }
    j
}

fn find_close_exec(v: &Vec<char>, i: usize) -> (r: usize)
    requires
        i <= v@.len(),
    ensures
        r == find_close(v@, i as int),
        i <= r <= v@.len(),
{
    let mut j = i;
    while j < v.len() && v[j] != ')'
        invariant
            i <= j <= v@.len(),
            find_close(v@, i as int) == find_close(v@, j as int),
        decreases v.len() - j,
    {
        j = j + 1;
    }
    j
}

proof fn lemma_digits_grow(d: Seq<char>, n: int)
    requires
        0 <= n <= d.len(),
        forall|k: int| 0 <= k < d.len() ==> is_digit(#[trigger] d[k]),
    ensures
        digits_value(d.subrange(0, n)) <= digits_value(d),
    decreases d.len() - n,
{
    if n < d.len() {
        lemma_digits_grow(d, n + 1);
        assert(d.subrange(0, n + 1).drop_last() == d.subrange(0, n));
    } else {
        assert(d.subrange(0, n) == d);
    }
}

proof fn lemma_skip_digits_all(s: Seq<char>, i: int, k: int)
    requires
        0 <= i <= k < skip_digits(s, i),
    ensures
        is_digit(s[k]),
        k < s.len(),
    decreases k - i,
{
    if i < k {
        lemma_skip_digits_all(s, i + 1, k);
    }
}

proof fn lemma_skip_digits_bound(s: Seq<char>, i: int)
    requires
        0 <= i <= s.len(),
    ensures
        i <= skip_digits(s, i) <= s.len(),
    decreases s.len() - i,
{
    if i < s.len() && is_digit(s[i]) {
        lemma_skip_digits_bound(s, i + 1);
    }
}

fn number_at_exec(v: &Vec<char>, i: usize) -> (r: Option<(u64, usize)>)
    requires
        i <= v@.len(),
    ensures
        match number_at(v@, i as int) {
            None => r is None,
            Some((n, j)) => r == Some((n, j as usize)) && i < j <= v@.len(),
        },
{
    let ghost end = skip_digits(v@, i as int);
    proof {
        lemma_skip_digits_bound(v@, i as int);
    }
    let mut j = i;
    let mut acc: u64 = 0;
    while j < v.len() && '0' <= v[j] && v[j] <= '9'
        invariant
            i <= j <= end <= v@.len(),
            end == skip_digits(v@, i as int),
            skip_digits(v@, i as int) == skip_digits(v@, j as int),
            acc as nat == digits_value(v@.subrange(i as int, j as int)),
        decreases v.len() - j,
    {
        let d = (v[j] as u32 - '0' as u32) as u64;
        proof {
            assert(v@.subrange(i as int, j + 1).drop_last() == v@.subrange(i as int, j as int));
            assert(skip_digits(v@, j as int) == skip_digits(v@, j + 1));
            lemma_skip_digits_bound(v@, j + 1);
        }
        if acc > (u64::MAX - d) / 10 {
            proof {
                let full = v@.subrange(i as int, end);
                assert forall|k: int| 0 <= k < full.len() implies is_digit(#[trigger] full[k]) by {
                    lemma_skip_digits_all(v@, i as int, i + k);
                }
                assert(skip_digits(v@, j as int) == skip_digits(v@, j + 1));
                lemma_skip_digits_bound(v@, j + 1);
                lemma_digits_grow(full, j + 1 - i);
                assert(full.subrange(0, j + 1 - i) =~= v@.subrange(i as int, j + 1));
                assert(digits_value(v@.subrange(i as int, j + 1)) == acc * 10 + d);
                assert(acc * 10 + d > u64::MAX) by (nonlinear_arith)
                    requires
                        acc > (u64::MAX - d) / 10,
                        d <= 9,
                ;
            }
            return None;
        }
        acc = acc * 10 + d;
        j = j + 1;
    }
    if j == i {
        return None;
    }
    Some((acc, j))
}

fn char_at_exec(v: &Vec<char>, i: usize, c: char) -> (r: bool)
    ensures
        r == char_at(v@, i as int, c),
{
    i < v.len() && v[i] == c
}

fn char_after(v: &Vec<char>, i: usize, off: usize, c: char) -> (r: bool)
    ensures
        r == char_at(v@, i + off, c),
{
    i < v.len() && off < v.len() - i && v[i + off] == c
}

fn gas_at_exec(v: &Vec<char>, f: usize) -> (r: Option<SnapshotGas>)
    requires
        f <= v@.len(),
    ensures
        r == gas_at(v@, f as int),
{
    let n = v.len();
    if char_at_exec(v, f, 'μ') {
        if !char_after(v, f, 1, ':') {
            return None;
        }
        let h = skip_spaces_exec(v, f + 2);
        match number_at_exec(v, h) {
            None => None,
            Some((mean, k)) => {
                if !char_at_exec(v, k, ',') {
                    return None;
                }
                let m = skip_spaces_exec(v, k + 1);
                if !char_at_exec(v, m, '~') || !char_after(v, m, 1, ':') {
                    return None;
                }
                let n = skip_spaces_exec(v, m + 2);
                match number_at_exec(v, n) {
                    None => None,
                    Some((median, p)) => {
                        if char_at_exec(v, p, ')') {
                            Some(SnapshotGas::Fuzz { mean, median })
                        } else {
                            None
                        }
                    },
                }
            },
        }
    } else {
        let g = if char_at_exec(v, f, 'g') && char_after(v, f, 1, 'a') && char_after(v, f, 2, 's')
            && char_after(v, f, 3, ':') {
            f + 4
        } else {
            f
        };
        let h = skip_spaces_exec(v, g);
        match number_at_exec(v, h) {
            None => None,
            Some((gas, k)) => {
                if char_at_exec(v, k, ')') {
                    Some(SnapshotGas::Standard(gas))
                } else {
                    None
                }
            },
        }
    }
}

impl SnapshotEntry {
    /// Reads a snapshot line: `sig(params) (gas: N)`, `sig(params) (N)` or
    /// `sig(params) (μ: MEAN, ~: MEDIAN)`.
    pub fn from_str(s: &str) -> (r: Result<SnapshotEntry, SnapshotParseError>)
        ensures
            match entry_of(s@) {
                None => r is Err && r->Err_0.line@ == s@,
                Some((a, e, g)) => r is Ok && r->Ok_0.signature@ == s@.subrange(a, e)
                    && r->Ok_0.gas_used == g,
            },
    {
        let v = chars_of(s);
        let a = skip_spaces_exec(&v, 0);
        let b = skip_word_exec(&v, a);
        let c = skip_spaces_exec(&v, b);
        if b <= a || !char_at_exec(&v, c, '(') {
            return Err(SnapshotParseError { line: s.to_owned() });
        }
        let d = find_close_exec(&v, c + 1);
        if d >= v.len() {
            return Err(SnapshotParseError { line: s.to_owned() });
        }
        let e = d + 1;
        let p = skip_spaces_exec(&v, e);
        if !char_at_exec(&v, p, '(') {
            return Err(SnapshotParseError { line: s.to_owned() });
        }
        match gas_at_exec(&v, p + 1) {
            None => Err(SnapshotParseError { line: s.to_owned() }),
            Some(g) => {
                let sig = s.substring_char(a, e).to_owned();
                Ok(SnapshotEntry { signature: sig, gas_used: g })
            },
        }
    }
}

impl Format {
    /// Reads a layout name: `t` or `table`; anything else is handed back.
    pub fn from_str(s: &str) -> (r: Result<Format, String>)
        ensures
            (s@ == seq!['t'] || s@ == seq!['t', 'a', 'b', 'l', 'e']) ==> r == Ok::<Format, String>(
                Format::Table,
            ),
            !(s@ == seq!['t'] || s@ == seq!['t', 'a', 'b', 'l', 'e']) ==> r is Err && r->Err_0@
                == s@,
    {
        let v = chars_of(s);
        if v.len() == 1 && v[0] == 't' {
            proof {
                assert(s@ =~= seq!['t']);
            }
            return Ok(Format::Table);
        }
        if v.len() == 5 && v[0] == 't' && v[1] == 'a' && v[2] == 'b' && v[3] == 'l' && v[4] == 'e' {
            proof {
                assert(s@ =~= seq!['t', 'a', 'b', 'l', 'e']);
            }
            return Ok(Format::Table);
        }
        Err(s.to_owned())
    }
}

} // verus!
