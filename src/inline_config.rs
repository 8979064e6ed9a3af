use vstd::prelude::*;
use vstd::string::{StrSliceExecFns, StringExecFns};

verus! {

/// What an inline configuration block declares.
#[derive(Clone, Copy, Debug, PartialEq, Eq, Structural)]
pub enum InlineConfigType {
    /// Settings for named profiles.
    Profile,
    /// A test fixture.
    Fixture,
}

/// Why an inline configuration was refused.
#[derive(Clone, Debug, PartialEq, Eq)]
pub enum InlineConfigParserError {
    /// A configuration line names no known profile; the line without whitespace.
    InvalidProfile(String),
    /// A value that should be an unsigned integer: the key and the value.
    ParseInt(String, String),
    /// A value that should be a boolean: the key and the value.
    ParseBool(String, String),
}

/// An inline configuration error with the place it comes from.
#[derive(Clone, Debug, PartialEq, Eq)]
pub struct InlineConfigError {
    pub line: String,
    pub source: InlineConfigParserError,
}

/// The documentation of a function, where inline configuration is written.
#[derive(Clone, Debug, PartialEq, Eq)]
pub struct NatSpec {
    pub contract: String,
    pub function: String,
    pub line: String,
    pub docs: String,
}

/// Rust's whitespace characters.
pub open spec fn is_ws(c: char) -> bool {
    c == ' ' || c == '\t' || c == '\n' || c == '\x0b' || c == '\x0c' || c == '\r' || c == '\u{85}'
        || c == '\u{a0}' || c == '\u{1680}' || ('\u{2000}' <= c && c <= '\u{200a}') || c
        == '\u{2028}' || c == '\u{2029}' || c == '\u{202f}' || c == '\u{205f}' || c == '\u{3000}'
}

fn is_ws_exec(c: char) -> (r: bool)
    ensures
        r == is_ws(c),
{
    c == ' ' || c == '\t' || c == '\n' || c == '\x0b' || c == '\x0c' || c == '\r' || c == '\u{85}'
        || c == '\u{a0}' || c == '\u{1680}' || ('\u{2000}' <= c && c <= '\u{200a}') || c
        == '\u{2028}' || c == '\u{2029}' || c == '\u{202f}' || c == '\u{205f}' || c == '\u{3000}'
}

/// The lines of `s`, split at `\n`, each without its whitespace.
pub open spec fn stripped_lines(s: Seq<char>) -> Seq<Seq<char>>
    decreases s.len(),
{
    if s.len() == 0 {
        seq![Seq::empty()]
    } else {
        let p = stripped_lines(s.drop_last());
        let c = s.last();
        if c == '\n' {
            p.push(Seq::empty())
        } else if is_ws(c) {
            p
        } else {
            p.update(p.len() - 1, p.last().push(c))
        }
    }
}

proof fn lemma_stripped_lines_nonempty(s: Seq<char>)
    ensures
        stripped_lines(s).len() >= 1,
    decreases s.len(),
{
    if s.len() > 0 {
        lemma_stripped_lines_nonempty(s.drop_last());
    }
}

/// The marker of configuration lines.
pub open spec fn config_prefix() -> Seq<char> {
    seq!['f', 'o', 'r', 'g', 'e', '-', 'c', 'o', 'n', 'f', 'i', 'g']
}

/// The configuration line that declares a fixture.
pub open spec fn fixture_line() -> Seq<char> {
    config_prefix() + seq![':', 'f', 'i', 'x', 't', 'u', 'r', 'e']
}

/// Whether `pat` occurs in `s` at `k`.
pub open spec fn occurs_at(s: Seq<char>, pat: Seq<char>, k: int) -> bool {
    0 <= k && k + pat.len() <= s.len() && s.subrange(k, k + pat.len()) == pat
}

/// Whether `pat` occurs in `s`.
pub open spec fn contains_seq(s: Seq<char>, pat: Seq<char>) -> bool {
    exists|k: int| occurs_at(s, pat, k)
}

/// Whether `line` sets a value of profile `p`.
pub open spec fn names_profile(line: Seq<char>, p: Seq<char>) -> bool {
    occurs_at(line, config_prefix() + seq![':'] + p + seq!['.'], 0)
}

/// What one stripped line decides: nothing where it is not a configuration line, a
/// fixture, nothing where it names a known profile, else a refusal.
pub open spec fn line_decision(line: Seq<char>, profiles: Seq<Seq<char>>) -> Option<Result<InlineConfigType, ()>> {
    if !contains_seq(line, config_prefix()) {
        None
    } else if line == fixture_line() {
        Some(Ok(InlineConfigType::Fixture))
    } else if exists|i: int| 0 <= i < profiles.len() && names_profile(line, #[trigger] profiles[i]) {
        None
    } else {
        Some(Err(()))
    }
}

/// The first decision among `lines`, in order.
pub open spec fn first_decision(lines: Seq<Seq<char>>, profiles: Seq<Seq<char>>) -> Option<Result<InlineConfigType, ()>>
    decreases lines.len(),
{
    if lines.len() == 0 {
        None
    } else {
        match first_decision(lines.drop_last(), profiles) {
            Some(d) => Some(d),
            None => line_decision(lines.last(), profiles),
        }
    }
}

/// The index of the first line of `lines` that decides, where one does.
pub open spec fn deciding_line(lines: Seq<Seq<char>>, profiles: Seq<Seq<char>>) -> int
    decreases lines.len(),
{
    if lines.len() == 0 {
        0
    } else if first_decision(lines.drop_last(), profiles) is Some {
        deciding_line(lines.drop_last(), profiles)
    } else {
        lines.len() - 1
    }
}

/// The characters of each of `v`.
pub open spec fn vec_views(v: Seq<Vec<char>>) -> Seq<Seq<char>> {
    v.map_values(|p: Vec<char>| p@)
}

/// The characters of each of `v`.
pub open spec fn string_views(v: Seq<String>) -> Seq<Seq<char>> {
    v.map_values(|p: String| p@)
}

fn chars_of(s: &str) -> (r: Vec<char>)
    ensures
        r@ == s@,
{
    let n = s.unicode_len();
    let mut r: Vec<char> = Vec::new();
    let mut i: usize = 0;
    while i < n
        invariant
            n == s@.len(),
            i <= n,
            r@ == s@.subrange(0, i as int),
        decreases n - i,
    {
        r.push(s.get_char(i));
        i = i + 1;
    }
    assert(r@ =~= s@);
    r
}

fn occurs_at_exec(s: &Vec<char>, pat: &Vec<char>, k: usize) -> (r: bool)
    ensures
        r == occurs_at(s@, pat@, k as int),
{
    let n = s.len();
    if k > n || pat.len() > n - k {
        return false;
    }
    let mut i: usize = 0;
    while i < pat.len()
        invariant
            n == s@.len(),
            i <= pat@.len(),
            k + pat@.len() <= s@.len(),
            forall|j: int| 0 <= j < i ==> s@[k + j] == pat@[j],
        decreases pat@.len() - i,
    {
        if s[k + i] != pat[i] {
            assert(s@.subrange(k as int, k + pat@.len())[i as int] != pat@[i as int]);
            return false;
        }
        i = i + 1;
    }
    assert(s@.subrange(k as int, k + pat@.len()) =~= pat@);
    true
}

fn contains_exec(s: &Vec<char>, pat: &Vec<char>) -> (r: bool)
    ensures
        r == contains_seq(s@, pat@),
{
    let n = s.len();
    let mut k: usize = 0;
    loop
        invariant
            n == s@.len(),
            k <= n,
            forall|j: int| 0 <= j < k ==> !occurs_at(s@, pat@, j),
        ensures
            k == n,
            forall|j: int| 0 <= j <= k ==> !occurs_at(s@, pat@, j),
        decreases n - k,
    {
        if occurs_at_exec(s, pat, k) {
            return true;
        }
        if k == n {
            break;
        }
        k = k + 1;
    }
    assert forall|j: int| !occurs_at(s@, pat@, j) by {
        if 0 <= j && j <= k {
        } else if j > k {
            assert(j + pat@.len() > s@.len());
        }
    }
    false
}

fn prefix_chars() -> (r: Vec<char>)
    ensures
        r@ == config_prefix(),
{
    let r = vec!['f', 'o', 'r', 'g', 'e', '-', 'c', 'o', 'n', 'f', 'i', 'g'];
    assert(r@ =~= config_prefix());
    r
}

fn fixture_chars() -> (r: Vec<char>)
    ensures
        r@ == fixture_line(),
{
    let r = vec!['f', 'o', 'r', 'g', 'e', '-', 'c', 'o', 'n', 'f', 'i', 'g', ':', 'f', 'i', 'x', 't', 'u', 'r', 'e'];
    assert(r@ =~= fixture_line());
    r
}

fn seq_eq(a: &Vec<char>, b: &Vec<char>) -> (r: bool)
    ensures
        r == (a@ == b@),
{
    if a.len() != b.len() {
        return false;
    }
    let r = occurs_at_exec(a, b, 0);
    proof {
        assert(a@.subrange(0, b@.len() as int) =~= a@);
    }
    r
}

fn profile_pattern(p: &Vec<char>) -> (r: Vec<char>)
    ensures
        r@ == config_prefix() + seq![':'] + p@ + seq!['.'],
{
    let mut r = prefix_chars();
    r.push(':');
    let mut i: usize = 0;
    let ghost start = r@;
    while i < p.len()
        invariant
            i <= p@.len(),
            r@ == start + p@.subrange(0, i as int),
        decreases p@.len() - i,
    {
        r.push(p[i]);
        i = i + 1;
        assert(p@.subrange(0, i as int) =~= p@.subrange(0, i - 1).push(p@[i - 1]));
    }
    r.push('.');
    assert(p@.subrange(0, i as int) =~= p@);
    assert(r@ =~= config_prefix() + seq![':'] + p@ + seq!['.']);
    r
}

fn decide_line(line: &Vec<char>, profiles: &Vec<Vec<char>>) -> (r: Option<Result<InlineConfigType, ()>>)
    ensures
        r == line_decision(line@, vec_views(profiles@)),
{
    let ghost ps = vec_views(profiles@);
    if !contains_exec(line, &prefix_chars()) {
        return None;
    }
    if seq_eq(line, &fixture_chars()) {
        return Some(Ok(InlineConfigType::Fixture));
    }
    let mut i: usize = 0;
    while i < profiles.len()
        invariant
            i <= profiles@.len(),
            ps == vec_views(profiles@),
            contains_seq(line@, config_prefix()),
            line@ != fixture_line(),
            forall|j: int| 0 <= j < i ==> !names_profile(line@, #[trigger] ps[j]),
        decreases profiles@.len() - i,
    {
        let pat = profile_pattern(&profiles[i]);
        assert(ps[i as int] == profiles@[i as int]@);
        if occurs_at_exec(line, &pat, 0) {
            assert(names_profile(line@, ps[i as int]));
            return None;
        }
        i = i + 1;
    }
    Some(Err(()))
}

/// Whether `natspec` configures a fixture or known profiles: the first configuration
/// line, without whitespace, that is exactly `forge-config:fixture` makes it a fixture;
/// one before it that names none of `profiles` (`forge-config:<profile>.`) is refused;
/// with neither, the lines configure profiles.
pub fn validate_inline_config_type(natspec: &NatSpec, profiles: &Vec<String>) -> (r: Result<
    InlineConfigType,
    InlineConfigError,
>)
    ensures
        ({
            let ps = string_views(profiles@);
            let lines = stripped_lines(natspec.docs@);
            match first_decision(lines, ps) {
                None => r == Ok::<InlineConfigType, InlineConfigError>(InlineConfigType::Profile),
                Some(Ok(t)) => r == Ok::<InlineConfigType, InlineConfigError>(t),
                Some(Err(_)) => r is Err && r->Err_0.line@ == natspec.line@ && r->Err_0.source
                    is InvalidProfile && r->Err_0.source->InvalidProfile_0@ == lines[deciding_line(
                    lines,
                    ps,
                )],
            }
        }),
{
    let ghost ps = string_views(profiles@);
    let mut pv: Vec<Vec<char>> = Vec::new();
    let mut i: usize = 0;
    while i < profiles.len()
        invariant
            i <= profiles@.len(),
            pv@.len() == i,
            forall|j: int| 0 <= j < i ==> #[trigger] pv@[j]@ == profiles@[j]@,
        decreases profiles@.len() - i,
    {
        pv.push(chars_of(profiles[i].as_str()));
        i = i + 1;
    }
    proof {
        assert(vec_views(pv@) =~= ps);
    }
    let docs = natspec.docs.as_str();
    let d = chars_of(docs);
    let mut cur: Vec<char> = Vec::new();
    let mut cur_text = String::new();
    let ghost mut done: Seq<Seq<char>> = Seq::empty();
    let mut k: usize = 0;
    proof {
        assert(d@.subrange(0, 0) =~= Seq::<char>::empty());
        assert(done.push(cur@) =~= seq![Seq::<char>::empty()]);
    }
    while k < d.len()
        invariant
            k <= d@.len(),
            d@ == natspec.docs@,
            docs@ == natspec.docs@,
            stripped_lines(d@.subrange(0, k as int)) == done.push(cur@),
            cur_text@ == cur@,
            first_decision(done, ps) is None,
            vec_views(pv@) == ps,
            ps == string_views(profiles@),
        decreases d@.len() - k,
    {
        let c = d[k];
        proof {
            assert(d@.subrange(0, k + 1).drop_last() =~= d@.subrange(0, k as int));
        }
        if c == '\n' {
            let decision = decide_line(&cur, &pv);
            match decision {
                Some(Ok(t)) => {
                    proof {
                        lemma_break_decides(d@, k as int, done, cur@, ps);
                    }
                    return Ok(t);
                },
                Some(Err(())) => {
                    proof {
                        lemma_break_decides(d@, k as int, done, cur@, ps);
                    }
                    return Err(
                        InlineConfigError {
                            line: natspec.line.clone(),
                            source: InlineConfigParserError::InvalidProfile(cur_text),
                        },
                    );
                },
                None => {
                    proof {
                        assert(done.push(cur@).drop_last() =~= done);
                        done = done.push(cur@);
                    }
                    cur = Vec::new();
                    cur_text = String::new();
                    proof {
                        assert(cur@ =~= Seq::<char>::empty());
                    }
                },
            }
        } else if !is_ws_exec(c) {
            let piece = docs.substring_char(k, k + 1);
            proof {
                assert(piece@ =~= seq![c]);
                lemma_stripped_lines_nonempty(d@.subrange(0, k as int));
            }
            let ghost cur_old = cur@;
            cur.push(c);
            cur_text.append(piece);
            proof {
                assert(done.push(cur_old).update(done.len() as int, cur_old.push(c)) =~= done.push(
                    cur@,
                ));
            }
        }
        k = k + 1;
    }
    proof {
        assert(d@.subrange(0, k as int) =~= d@);
        assert(done.push(cur@).drop_last() =~= done);
    }
    match decide_line(&cur, &pv) {
        Some(Ok(t)) => Ok(t),
        Some(Err(())) => {
            proof {
                lemma_deciding_line_last(done, cur@, ps);
            }
            Err(
                InlineConfigError {
                    line: natspec.line.clone(),
                    source: InlineConfigParserError::InvalidProfile(cur_text),
                },
            )
        },
        None => Ok(InlineConfigType::Profile),
    }
}

proof fn lemma_lines_extend(d: Seq<char>, k: int, j: int)
    requires
        0 <= k < j <= d.len(),
        d[k] == '\n',
    ensures
        stripped_lines(d.subrange(0, j)).len() >= stripped_lines(d.subrange(0, k + 1)).len(),
        stripped_lines(d.subrange(0, j)).subrange(0, stripped_lines(d.subrange(0, k + 1)).len() - 1)
            == stripped_lines(d.subrange(0, k + 1)).subrange(
            0,
            stripped_lines(d.subrange(0, k + 1)).len() - 1,
        ),
    decreases j,
{
    lemma_stripped_lines_nonempty(d.subrange(0, k + 1));
    if j > k + 1 {
        lemma_lines_extend(d, k, j - 1);
        assert(d.subrange(0, j).drop_last() =~= d.subrange(0, j - 1));
        lemma_stripped_lines_nonempty(d.subrange(0, j - 1));
        let l = stripped_lines(d.subrange(0, k + 1)).len() - 1;
        let p = stripped_lines(d.subrange(0, j - 1));
        let q = stripped_lines(d.subrange(0, j));
        assert(q.subrange(0, l) =~= p.subrange(0, l));
    }
}

proof fn lemma_deciding_bound(lines: Seq<Seq<char>>, ps: Seq<Seq<char>>)
    requires
        first_decision(lines, ps) is Some,
    ensures
        0 <= deciding_line(lines, ps) < lines.len(),
    decreases lines.len(),
{
    if first_decision(lines.drop_last(), ps) is Some {
        lemma_deciding_bound(lines.drop_last(), ps);
    }
}

proof fn lemma_decision_prefix(s: Seq<Seq<char>>, n: int, ps: Seq<Seq<char>>)
    requires
        0 <= n <= s.len(),
        first_decision(s.subrange(0, n), ps) is Some,
    ensures
        first_decision(s, ps) == first_decision(s.subrange(0, n), ps),
        deciding_line(s, ps) == deciding_line(s.subrange(0, n), ps),
    decreases s.len(),
{
    if s.len() > n {
        assert(s.drop_last().subrange(0, n) =~= s.subrange(0, n));
        lemma_decision_prefix(s.drop_last(), n, ps);
    } else {
        assert(s.subrange(0, n) =~= s);
    }
}

/// Once the lines before a line break decide, the whole text decides the same way.
proof fn lemma_closed_lines_decide(d: Seq<char>, k: int, closed: Seq<Seq<char>>, ps: Seq<Seq<char>>)
    requires
        0 <= k < d.len(),
        d[k] == '\n',
        stripped_lines(d.subrange(0, k + 1)) == closed.push(Seq::<char>::empty()),
        first_decision(closed, ps) is Some,
    ensures
        first_decision(stripped_lines(d), ps) == first_decision(closed, ps),
        deciding_line(stripped_lines(d), ps) == deciding_line(closed, ps),
        stripped_lines(d)[deciding_line(closed, ps)] == closed[deciding_line(closed, ps)],
{
    lemma_lines_extend(d, k, d.len() as int);
    assert(d.subrange(0, d.len() as int) =~= d);
    let full = stripped_lines(d);
    assert(closed.push(Seq::<char>::empty()).subrange(0, closed.len() as int) =~= closed);
    assert(full.subrange(0, closed.len() as int) == closed);
    lemma_decision_prefix(full, closed.len() as int, ps);
    lemma_deciding_bound(closed, ps);
    assert(full[deciding_line(closed, ps)] == full.subrange(0, closed.len() as int)[deciding_line(
        closed,
        ps,
    )]);
}

proof fn lemma_break_decides(
    d: Seq<char>,
    k: int,
    done: Seq<Seq<char>>,
    cur: Seq<char>,
    ps: Seq<Seq<char>>,
)
    requires
        0 <= k < d.len(),
        d[k] == '\n',
        stripped_lines(d.subrange(0, k)) == done.push(cur),
        first_decision(done, ps) is None,
        line_decision(cur, ps) is Some,
    ensures
        first_decision(stripped_lines(d), ps) == line_decision(cur, ps),
        stripped_lines(d)[deciding_line(stripped_lines(d), ps)] == cur,
{
    assert(d.subrange(0, k + 1).drop_last() =~= d.subrange(0, k));
    assert(stripped_lines(d.subrange(0, k + 1)) == done.push(cur).push(Seq::<char>::empty()));
    assert(done.push(cur).drop_last() =~= done);
    lemma_deciding_line_last(done, cur, ps);
    lemma_closed_lines_decide(d, k, done.push(cur), ps);
}

proof fn lemma_deciding_line_last(done: Seq<Seq<char>>, last: Seq<char>, ps: Seq<Seq<char>>)
    requires
        first_decision(done, ps) is None,
    ensures
        deciding_line(done.push(last), ps) == done.len(),
        done.push(last)[done.len() as int] == last,
        first_decision(done.push(last), ps) == line_decision(last, ps),
{
    assert(done.push(last).drop_last() =~= done);
}

/// The number that the decimal digits `d` write.
pub open spec fn decimal_value(d: Seq<char>) -> nat
    decreases d.len(),
{
    if d.len() == 0 {
        0
    } else {
        decimal_value(d.drop_last()) * 10 + (d.last() as nat - '0' as nat) as nat
    }
}

pub open spec fn all_digits(d: Seq<char>) -> bool {
    forall|i: int| 0 <= i < d.len() ==> '0' <= #[trigger] d[i] && d[i] <= '9'
}

/// The digits of an unsigned number as Rust reads it: an optional `+` and one digit at
/// least.
pub open spec fn unsigned_digits(s: Seq<char>) -> Option<Seq<char>> {
    let d = if s.len() > 0 && s[0] == '+' { s.drop_first() } else { s };
    if d.len() > 0 && all_digits(d) { Some(d) } else { None }
}

proof fn lemma_decimal_grows(d: Seq<char>, n: int)
    requires
        0 <= n <= d.len(),
        all_digits(d),
    ensures
        decimal_value(d.subrange(0, n)) <= decimal_value(d),
    decreases d.len() - n,
{
    if n < d.len() {
        lemma_decimal_grows(d, n + 1);
        assert(d.subrange(0, n + 1).drop_last() =~= d.subrange(0, n));
    } else {
        assert(d.subrange(0, n) =~= d);
    }
}

/// Reads `value` as a 32-bit unsigned number; `key` names the setting in the error.
pub fn parse_config_u32(key: String, value: String) -> (r: Result<u32, InlineConfigParserError>)
    ensures
        match unsigned_digits(value@) {
            Some(d) => if decimal_value(d) <= u32::MAX {
                r == Ok::<u32, InlineConfigParserError>(decimal_value(d) as u32)
            } else {
                r == Err::<u32, InlineConfigParserError>(InlineConfigParserError::ParseInt(key, value))
            },
            None => r == Err::<u32, InlineConfigParserError>(
                InlineConfigParserError::ParseInt(key, value),
            ),
        },
{
    let v = chars_of(value.as_str());
    let start: usize = if v.len() > 0 && v[0] == '+' { 1 } else { 0 };
    let ghost d = if v@.len() > 0 && v@[0] == '+' { v@.drop_first() } else { v@ };
    proof {
        assert(d =~= v@.subrange(start as int, v@.len() as int));
    }
    if start >= v.len() {
        return Err(InlineConfigParserError::ParseInt(key, value));
    }
    let mut acc: u64 = 0;
    let mut i = start;
    while i < v.len()
        invariant
            start <= i <= v@.len(),
            v@ == value@,
            d.len() > 0,
            unsigned_digits(value@) == (if all_digits(d) { Some(d) } else { None::<Seq<char>> }),
            d =~= v@.subrange(start as int, v@.len() as int),
            acc as nat == decimal_value(v@.subrange(start as int, i as int)),
            acc <= u32::MAX,
            all_digits(v@.subrange(start as int, i as int)),
        decreases v@.len() - i,
    {
        let c = v[i];
        if !('0' <= c && c <= '9') {
            proof {
                assert(d[i - start] == c);
            }
            return Err(InlineConfigParserError::ParseInt(key, value));
        }
        proof {
            assert(v@.subrange(start as int, i + 1).drop_last() =~= v@.subrange(start as int, i as int));
        }
        acc = acc * 10 + (c as u32 - '0' as u32) as u64;
        i = i + 1;
        proof {
            assert(all_digits(v@.subrange(start as int, i as int)));
        }
        if acc > u32::MAX as u64 {
            proof {
                assert(d.subrange(0, i - start) =~= v@.subrange(start as int, i as int));
                if all_digits(d) {
                    lemma_decimal_grows(d, i - start);
                }
            }
            return Err(InlineConfigParserError::ParseInt(key, value));
        }
    }
    proof {
        assert(v@.subrange(start as int, i as int) =~= d);
    }
    Ok(acc as u32)
}

/// Reads `value` as `true` or `false`; `key` names the setting in the error.
pub fn parse_config_bool(key: String, value: String) -> (r: Result<bool, InlineConfigParserError>)
    ensures
        value@ == seq!['t', 'r', 'u', 'e'] ==> r == Ok::<bool, InlineConfigParserError>(true),
        value@ == seq!['f', 'a', 'l', 's', 'e'] ==> r == Ok::<bool, InlineConfigParserError>(false),
        value@ != seq!['t', 'r', 'u', 'e'] && value@ != seq!['f', 'a', 'l', 's', 'e'] ==> r
            == Err::<bool, InlineConfigParserError>(InlineConfigParserError::ParseBool(key, value)),
{
    let v = chars_of(value.as_str());
    let t = vec!['t', 'r', 'u', 'e'];
    let f = vec!['f', 'a', 'l', 's', 'e'];
    proof {
        assert(t@ =~= seq!['t', 'r', 'u', 'e']);
        assert(f@ =~= seq!['f', 'a', 'l', 's', 'e']);
    }
    if seq_eq(&v, &t) {
        Ok(true)
    } else if seq_eq(&v, &f) {
        Ok(false)
    } else {
        Err(InlineConfigParserError::ParseBool(key, value))
    }
}

} // verus!
