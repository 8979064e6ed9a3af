use vstd::prelude::*;
use vstd::string::StrSliceExecFns;
use crate::inline_config::is_ws;

verus! {

/// A formatter directive written in a comment.
#[derive(Clone, Copy, Debug, PartialEq, Eq, Structural)]
pub enum InlineConfigItem {
    /// Leave the next code item as it is, whatever its line breaks.
    DisableNextItem,
    /// Leave the line after the directive as it is.
    DisableNextLine,
    /// Leave everything up to the matching `disable-end` as it is.
    DisableStart,
    /// Ends what `disable-start` began.
    DisableEnd,
}

/// A directive name that is not one of the four.
#[derive(Clone, Debug, PartialEq, Eq)]
pub struct InvalidInlineConfigItem(pub String);

/// A stretch of source, by character index.
#[derive(Clone, Copy, Debug, PartialEq, Eq, Structural)]
pub struct Loc {
    pub start: usize,
    pub end: usize,
}

/// A stretch of source left unformatted. A loose one holds every location that starts in
/// it; a strict one only those that also end in it.
#[derive(Clone, Copy, Debug, PartialEq, Eq, Structural)]
pub struct DisabledRange {
    pub start: usize,
    pub end: usize,
    pub loose: bool,
}

impl DisabledRange {
    pub open spec fn includes_spec(&self, loc: Loc) -> bool {
        loc.start >= self.start && (if self.loose { loc.start } else { loc.end }) <= self.end
    }

    pub fn includes(&self, loc: Loc) -> (r: bool)
        ensures
            r == self.includes_spec(loc),
    {
        loc.start >= self.start && (if self.loose { loc.start } else { loc.end }) <= self.end
    }
}

fn lit_eq(v: &Vec<char>, lit: &Vec<char>) -> (r: bool)
    ensures
        r == (v@ == lit@),
{
    if v.len() != lit.len() {
        return false;
    }
    let mut i: usize = 0;
    while i < v.len()
        invariant
            v@.len() == lit@.len(),
            i <= v@.len(),
            forall|j: int| 0 <= j < i ==> v@[j] == lit@[j],
        decreases v@.len() - i,
    {
        if v[i] != lit[i] {
            return false;
        }
        i = i + 1;
    }
    assert(v@ =~= lit@);
    true
}

fn chars_of(s: &str) -> (r: Vec<char>)
    ensures
        r@ == s@,
{
    let n = s.unicode_len();
    let mut r: Vec<char> = Vec::new();
    let mut i: usize = 0;
    while i < n
        invariant
            n == s@.len(),
            i <= n,
            r@ == s@.subrange(0, i as int),
        decreases n - i,
    {
        r.push(s.get_char(i));
        i = i + 1;
    }
    assert(r@ =~= s@);
    r
}

pub open spec fn next_item_name() -> Seq<char> {
    seq!['d', 'i', 's', 'a', 'b', 'l', 'e', '-', 'n', 'e', 'x', 't', '-', 'i', 't', 'e', 'm']
}

pub open spec fn next_line_name() -> Seq<char> {
    seq!['d', 'i', 's', 'a', 'b', 'l', 'e', '-', 'n', 'e', 'x', 't', '-', 'l', 'i', 'n', 'e']
}

pub open spec fn start_name() -> Seq<char> {
    seq!['d', 'i', 's', 'a', 'b', 'l', 'e', '-', 's', 't', 'a', 'r', 't']
}

pub open spec fn end_name() -> Seq<char> {
    seq!['d', 'i', 's', 'a', 'b', 'l', 'e', '-', 'e', 'n', 'd']
}

impl InlineConfigItem {
    /// Reads a directive name.
    pub fn from_str(s: &str) -> (r: Result<InlineConfigItem, InvalidInlineConfigItem>)
        ensures
            s@ == next_item_name() ==> r == Ok::<InlineConfigItem, InvalidInlineConfigItem>(
                InlineConfigItem::DisableNextItem,
            ),
            s@ == next_line_name() ==> r == Ok::<InlineConfigItem, InvalidInlineConfigItem>(
                InlineConfigItem::DisableNextLine,
            ),
            s@ == start_name() ==> r == Ok::<InlineConfigItem, InvalidInlineConfigItem>(
                InlineConfigItem::DisableStart,
            ),
            s@ == end_name() ==> r == Ok::<InlineConfigItem, InvalidInlineConfigItem>(
                InlineConfigItem::DisableEnd,
            ),
            s@ != next_item_name() && s@ != next_line_name() && s@ != start_name() && s@
                != end_name() ==> r is Err && r->Err_0.0@ == s@,
    {
        let v = chars_of(s);
        let a = vec!['d', 'i', 's', 'a', 'b', 'l', 'e', '-', 'n', 'e', 'x', 't', '-', 'i', 't', 'e', 'm'];
        let b = vec!['d', 'i', 's', 'a', 'b', 'l', 'e', '-', 'n', 'e', 'x', 't', '-', 'l', 'i', 'n', 'e'];
        let c = vec!['d', 'i', 's', 'a', 'b', 'l', 'e', '-', 's', 't', 'a', 'r', 't'];
        let d = vec!['d', 'i', 's', 'a', 'b', 'l', 'e', '-', 'e', 'n', 'd'];
        proof {
            assert(a@ =~= next_item_name());
            assert(b@ =~= next_line_name());
            assert(c@ =~= start_name());
            assert(d@ =~= end_name());
        }
        if lit_eq(&v, &a) {
            Ok(InlineConfigItem::DisableNextItem)
        } else if lit_eq(&v, &b) {
            Ok(InlineConfigItem::DisableNextLine)
        } else if lit_eq(&v, &c) {
            Ok(InlineConfigItem::DisableStart)
        } else if lit_eq(&v, &d) {
            Ok(InlineConfigItem::DisableEnd)
        } else {
            Err(InvalidInlineConfigItem(s.to_owned()))
        }
    }
}

/// Where a scan of source stands with respect to comments.
#[derive(Clone, Copy, Debug, PartialEq, Eq, Structural)]
pub enum CommentState {
    Code,
    Line,
    BlockOpening,
    Block,
    BlockClosing,
}

/// The state after the character `c`, with `next` after it, from state `st`: `//` opens a
/// comment up to the line break, `/*` one up to `*/`.
pub open spec fn step_state(st: CommentState, c: char, next: Option<char>) -> CommentState {
    match st {
        CommentState::Code => if c == '/' && next == Some('/') {
            CommentState::Line
        } else if c == '/' && next == Some('*') {
            CommentState::BlockOpening
        } else {
            CommentState::Code
        },
        CommentState::Line => if c == '\n' {
            CommentState::Code
        } else {
            CommentState::Line
        },
        CommentState::BlockOpening => CommentState::Block,
        CommentState::Block => if c == '*' && next == Some('/') {
            CommentState::BlockClosing
        } else {
            CommentState::Block
        },
        CommentState::BlockClosing => CommentState::Code,
    }
}

pub open spec fn next_char(t: Seq<char>, i: int) -> Option<char> {
    if 0 <= i + 1 < t.len() { Some(t[i + 1]) } else { None }
}

/// The comment state before character `i` of `t`.
pub open spec fn state_at(t: Seq<char>, i: int) -> CommentState
    decreases i,
{
    if i <= 0 {
        CommentState::Code
    } else {
        step_state(state_at(t, i - 1), t[i - 1], next_char(t, i - 1))
    }
}

/// Whether character `i` of `t` is code that is not whitespace.
pub open spec fn is_code(t: Seq<char>, i: int) -> bool {
    &&& state_at(t, i) == CommentState::Code
    &&& step_state(CommentState::Code, t[i], next_char(t, i)) == CommentState::Code
    &&& !is_ws(t[i])
}

/// The first index from `i` on where `t` holds code that is not whitespace, or its length.
pub open spec fn next_code(t: Seq<char>, i: int) -> int
    decreases t.len() - i,
{
    if i < 0 || i >= t.len() {
        t.len() as int
    } else if is_code(t, i) {
        i
    } else {
        next_code(t, i + 1)
    }
}

/// The first index from `i` on where `t` holds a line break, or its length.
pub open spec fn next_break(t: Seq<char>, i: int) -> int
    decreases t.len() - i,
{
    if i < 0 || i >= t.len() {
        t.len() as int
    } else if t[i] == '\n' {
        i
    } else {
        next_break(t, i + 1)
    }
}

/// The range that `disable-next-item` ending at `offset` leaves alone: from the next code
/// up to the code after it, or the end of the source.
pub open spec fn next_item_range(src: Seq<char>, offset: int) -> Option<DisabledRange> {
    let t = src.subrange(offset, src.len() as int);
    let s = next_code(t, 0);
    if offset > src.len() || s >= t.len() {
        None
    } else {
        let e = next_code(t, s + 1);
        Some(
            DisabledRange {
                start: (offset + s) as usize,
                end: (if e < t.len() { offset + e } else { src.len() as int }) as usize,
                loose: true,
            },
        )
    }
}

/// The range that `disable-next-line` ending at `offset` leaves alone: the line after the
/// next line break.
pub open spec fn next_line_range(src: Seq<char>, offset: int) -> Option<DisabledRange> {
    let t = src.subrange(offset, src.len() as int);
    let b = next_break(t, 0);
    if offset > src.len() || b + 1 >= t.len() {
        None
    } else {
        let e = next_break(t, b + 1);
        Some(
            DisabledRange {
                start: (offset + b + 1) as usize,
                end: (if e < t.len() { offset + e } else { src.len() as int }) as usize,
                loose: false,
            },
        )
    }
}

/// The ranges, the open `disable-start`, and the nesting depth after the directives `items`.
pub open spec fn scan_items(items: Seq<(Loc, InlineConfigItem)>, src: Seq<char>) -> (
    Seq<DisabledRange>,
    Option<usize>,
    nat,
)
    decreases items.len(),
{
    if items.len() == 0 {
        (Seq::empty(), None, 0)
    } else {
        let (ranges, open, depth) = scan_items(items.drop_last(), src);
        let (loc, item) = items.last();
        match item {
            InlineConfigItem::DisableNextItem => match next_item_range(src, loc.end as int) {
                Some(r) => (ranges.push(r), open, depth),
                None => (ranges, open, depth),
            },
            InlineConfigItem::DisableNextLine => match next_line_range(src, loc.end as int) {
                Some(r) => (ranges.push(r), open, depth),
                None => (ranges, open, depth),
            },
            InlineConfigItem::DisableStart => (
                ranges,
                if depth == 0 { Some(loc.end) } else { open },
                depth + 1,
            ),
            InlineConfigItem::DisableEnd => {
                let d = if depth == 0 { 0 } else { (depth - 1) as nat };
                if d == 0 {
                    match open {
                        Some(s) => (ranges.push(DisabledRange { start: s, end: loc.start, loose: false }), None, d),
                        None => (ranges, None, d),
                    }
                } else {
                    (ranges, open, d)
                }
            },
        }
    }
}

/// The ranges after the directives `items`, with an unclosed `disable-start` running to the
/// end of the source.
pub open spec fn ranges_of(items: Seq<(Loc, InlineConfigItem)>, src: Seq<char>) -> Seq<DisabledRange> {
    let (ranges, open, depth) = scan_items(items, src);
    match open {
        Some(s) => ranges.push(DisabledRange { start: s, end: src.len() as usize, loose: false }),
        None => ranges,
    }
}

pub open spec fn sorted_by_start(items: Seq<(Loc, InlineConfigItem)>) -> bool {
    forall|i: int, j: int| 0 <= i < j < items.len() ==> items[i].0.start <= items[j].0.start
}

/// The disabled ranges of a source file.
#[derive(Clone, Debug)]
pub struct InlineConfig {
    pub disabled_ranges: Vec<DisabledRange>,
}

fn state_step(st: CommentState, c: char, next: Option<char>) -> (r: CommentState)
    ensures
        r == step_state(st, c, next),
{
    match st {
        CommentState::Code => if c == '/' && next == Some('/') {
            CommentState::Line
        } else if c == '/' && next == Some('*') {
            CommentState::BlockOpening
        } else {
            CommentState::Code
        },
        CommentState::Line => if c == '\n' {
            CommentState::Code
        } else {
            CommentState::Line
        },
        CommentState::BlockOpening => CommentState::Block,
        CommentState::Block => if c == '*' && next == Some('/') {
            CommentState::BlockClosing
        } else {
            CommentState::Block
        },
        CommentState::BlockClosing => CommentState::Code,
    }
}

fn is_ws_char(c: char) -> (r: bool)
    ensures
        r == is_ws(c),
{
    c == ' ' || c == '\t' || c == '\n' || c == '\x0b' || c == '\x0c' || c == '\r' || c == '\u{85}'
        || c == '\u{a0}' || c == '\u{1680}' || ('\u{2000}' <= c && c <= '\u{200a}') || c
        == '\u{2028}' || c == '\u{2029}' || c == '\u{202f}' || c == '\u{205f}' || c == '\u{3000}'
}

fn next_of(t: &Vec<char>, i: usize) -> (r: Option<char>)
    requires
        i < t@.len(),
    ensures
        r == next_char(t@, i as int),
{
    if i < t.len() - 1 {
        Some(t[i + 1])
    } else {
        None
    }
}

/// `next_code(t, from)`, scanning with the comment state `st` before `from`.
fn next_code_exec(t: &Vec<char>, from: usize, st: CommentState) -> (r: usize)
    requires
        from <= t@.len(),
        st == state_at(t@, from as int),
    ensures
        r == next_code(t@, from as int),
{
    let mut i = from;
    let mut s = st;
    while i < t.len()
        invariant
            from <= i <= t@.len(),
            s == state_at(t@, i as int),
            next_code(t@, from as int) == next_code(t@, i as int),
        decreases t@.len() - i,
    {
        let c = t[i];
        let nx = next_of(t, i);
        let stepped = state_step(CommentState::Code, c, nx);
        if s == CommentState::Code && stepped == CommentState::Code && !is_ws_char(c) {
            return i;
        }
        s = state_step(s, c, nx);
        i = i + 1;
    }
    i
}

fn state_before(t: &Vec<char>, upto: usize) -> (r: CommentState)
    requires
        upto <= t@.len(),
    ensures
        r == state_at(t@, upto as int),
{
    let mut s = CommentState::Code;
    let mut i: usize = 0;
    while i < upto
        invariant
            i <= upto <= t@.len(),
            s == state_at(t@, i as int),
        decreases upto - i,
    {
        s = state_step(s, t[i], next_of(t, i));
        i = i + 1;
    }
    s
}

fn next_break_exec(t: &Vec<char>, from: usize) -> (r: usize)
    requires
        from <= t@.len(),
    ensures
        r == next_break(t@, from as int),
        from <= r <= t@.len(),
{
    let mut i = from;
    while i < t.len() && t[i] != '\n'
        invariant
            from <= i <= t@.len(),
            next_break(t@, from as int) == next_break(t@, i as int),
        decreases t@.len() - i,
    {
        i = i + 1;
    }
    i
}

proof fn lemma_next_code_bound(t: Seq<char>, i: int)
    requires
        0 <= i <= t.len(),
    ensures
        i <= next_code(t, i) <= t.len(),
    decreases t.len() - i,
{
    if i < t.len() && !is_code(t, i) {
        lemma_next_code_bound(t, i + 1);
    }
}

fn tail_of(src: &Vec<char>, offset: usize) -> (r: Vec<char>)
    requires
        offset <= src@.len(),
    ensures
        r@ == src@.subrange(offset as int, src@.len() as int),
{
    let mut r: Vec<char> = Vec::new();
    let mut i = offset;
    while i < src.len()
        invariant
            offset <= i <= src@.len(),
            r@ == src@.subrange(offset as int, i as int),
        decreases src@.len() - i,
    {
        r.push(src[i]);
        i = i + 1;
    }
    r
}

fn item_range(src: &Vec<char>, offset: usize) -> (r: Option<DisabledRange>)
    ensures
        r == next_item_range(src@, offset as int),
{
    if offset > src.len() {
        return None;
    }
    let t = tail_of(src, offset);
    let s = next_code_exec(&t, 0, CommentState::Code);
    if s >= t.len() {
        return None;
    }
    let st = state_before(&t, s + 1);
    proof {
        lemma_next_code_bound(t@, s + 1);
    }
    let e = next_code_exec(&t, s + 1, st);
    let end = if e < t.len() { offset + e } else { src.len() };
    Some(DisabledRange { start: offset + s, end, loose: true })
}

fn line_range(src: &Vec<char>, offset: usize) -> (r: Option<DisabledRange>)
    ensures
        r == next_line_range(src@, offset as int),
{
    if offset > src.len() {
        return None;
    }
    let t = tail_of(src, offset);
    let b = next_break_exec(&t, 0);
    if t.len() == 0 || b >= t.len() - 1 {
        return None;
    }
    let e = next_break_exec(&t, b + 1);
    let end = if e < t.len() { offset + e } else { src.len() };
    Some(DisabledRange { start: offset + b + 1, end, loose: false })
}

/// `items` sorted by where they start, ties in their order.
fn sort_items(items: Vec<(Loc, InlineConfigItem)>) -> (r: Vec<(Loc, InlineConfigItem)>)
    ensures
        sorted_by_start(r@),
        r@.to_multiset() == items@.to_multiset(),
{
    let mut sorted: Vec<(Loc, InlineConfigItem)> = Vec::new();
    let mut k: usize = 0;
    proof {
        assert(items@.subrange(0, 0) =~= sorted@);
    }
    while k < items.len()
        invariant
            k <= items@.len(),
            sorted_by_start(sorted@),
            sorted@.to_multiset() == items@.subrange(0, k as int).to_multiset(),
        decreases items@.len() - k,
    {
        let it = items[k];
        let mut pos: usize = 0;
        while pos < sorted.len() && sorted[pos].0.start <= it.0.start
            invariant
                pos <= sorted@.len(),
                forall|a: int| 0 <= a < pos ==> sorted@[a].0.start <= it.0.start,
            decreases sorted@.len() - pos,
        {
            pos = pos + 1;
        }
        proof {
            assert forall|a: int| pos <= a < sorted@.len() implies it.0.start <= sorted@[a].0.start by {
                if pos < sorted@.len() && a > pos {
                    assert(sorted@[pos as int].0.start <= sorted@[a].0.start);
                }
            }
            sorted@.insert_ensures(pos as int, it);
            assert(items@.subrange(0, k + 1) =~= items@.subrange(0, k as int).push(items@[k as int]));
            items@.subrange(0, k as int).to_multiset_ensures();
        }
        let ghost before = sorted@;
        sorted.insert(pos, it);
        proof {
            assert(sorted@.remove(pos as int) =~= before);
            sorted@.to_multiset_ensures();
            assert(sorted@[pos as int] == it);
            assert(sorted@.contains(it));
            assert(sorted@.to_multiset() =~= before.to_multiset().insert(it));
        }
        k = k + 1;
    }
    proof {
        assert(items@.subrange(0, k as int) =~= items@);
    }
    sorted
}

impl InlineConfig {
    /// The ranges that the directives `items` disable in `src`, the directives taken in
    /// order of their start.
    pub fn new(items: Vec<(Loc, InlineConfigItem)>, src: &str) -> (r: InlineConfig)
        ensures
            exists|sorted: Seq<(Loc, InlineConfigItem)>|
                sorted_by_start(sorted) && sorted.to_multiset() == items@.to_multiset()
                    && r.disabled_ranges@ == ranges_of(sorted, src@),
    {
        let sorted = sort_items(items);
        let s = chars_of(src);
        let mut ranges: Vec<DisabledRange> = Vec::new();
        let mut open: Option<usize> = None;
        let mut depth: usize = 0;
        let mut k: usize = 0;
        while k < sorted.len()
            invariant
                k <= sorted@.len(),
                s@ == src@,
                depth <= k,
                (ranges@, open, depth as nat) == scan_items(sorted@.subrange(0, k as int), s@),
            decreases sorted@.len() - k,
        {
            proof {
                assert(sorted@.subrange(0, k + 1).drop_last() =~= sorted@.subrange(0, k as int));
            }
            let (loc, item) = sorted[k];
            match item {
                InlineConfigItem::DisableNextItem => {
                    if let Some(r) = item_range(&s, loc.end) {
                        ranges.push(r);
                    }
                },
                InlineConfigItem::DisableNextLine => {
                    if let Some(r) = line_range(&s, loc.end) {
                        ranges.push(r);
                    }
                },
                InlineConfigItem::DisableStart => {
                    if depth == 0 {
                        open = Some(loc.end);
                    }
                    depth = depth + 1;
                },
                InlineConfigItem::DisableEnd => {
                    depth = if depth == 0 { 0 } else { depth - 1 };
                    if depth == 0 {
                        if let Some(start) = open {
                            ranges.push(DisabledRange { start, end: loc.start, loose: false });
                        }
                        open = None;
                    }
                },
            }
            k = k + 1;
        }
        proof {
            assert(sorted@.subrange(0, k as int) =~= sorted@);
        }
        if let Some(start) = open {
            ranges.push(DisabledRange { start, end: s.len(), loose: false });
        }
        InlineConfig { disabled_ranges: ranges }
    }

    /// Whether some disabled range holds `loc`.
    pub fn is_disabled(&self, loc: Loc) -> (r: bool)
        ensures
            r == exists|i: int|
                0 <= i < self.disabled_ranges@.len() && (#[trigger] self.disabled_ranges@[i]).includes_spec(
                    loc,
                ),
    {
        let mut i: usize = 0;
        while i < self.disabled_ranges.len()
            invariant
                i <= self.disabled_ranges@.len(),
                forall|j: int| 0 <= j < i ==> !(#[trigger] self.disabled_ranges@[j]).includes_spec(loc),
            decreases self.disabled_ranges@.len() - i,
        {
            if self.disabled_ranges[i].includes(loc) {
                return true;
            }
            i = i + 1;
        }
        false
    }
}

} // verus!
