//! The lexer: the whole token sequence of one source text, and a cursor over it that
//! steps over blanks, line breaks and lexical errors while tracking line and column.
use vstd::prelude::*;
use crate::grammar::{lex_at, scan, until};
use crate::scanner::{count_until, pairs, scan_chars, width_sum};
use crate::text::chars_of;
use crate::token::{Token, TokenV};

verus! {

pub open spec fn trivia(t: TokenV) -> bool {
    t is Line || t is Space || t is Error
}

/// The meaningful tokens among the first `n` of `toks`.
pub open spec fn meaningful(toks: Seq<TokenV>, n: int) -> Seq<TokenV>
    decreases n,
{
    if n <= 0 || n > toks.len() {
        Seq::empty()
    } else if trivia(toks[n - 1]) {
        meaningful(toks, n - 1)
    } else {
        meaningful(toks, n - 1).push(toks[n - 1])
    }
}

/// The first position at or after `i` that does not hold trivia.
pub open spec fn skip_trivia(toks: Seq<TokenV>, i: int) -> int
    decreases toks.len() - i,
{
    if 0 <= i < toks.len() && trivia(toks[i]) {
        skip_trivia(toks, i + 1)
    } else {
        i
    }
}

/// The last position at or before `i` that is the start or follows a meaningful token.
pub open spec fn back_trivia(toks: Seq<TokenV>, i: int) -> int
    decreases i,
{
    if 0 < i <= toks.len() && trivia(toks[i - 1]) {
        back_trivia(toks, i - 1)
    } else {
        i
    }
}

/// A cursor position: the start, or just after a meaningful token.
pub open spec fn canonical(toks: Seq<TokenV>, i: int) -> bool {
    0 <= i <= toks.len() && (i == 0 || !trivia(toks[i - 1]))
}

/// A place the cursor may stand: a cursor position, or the very end of input.
pub open spec fn cursor_at(toks: Seq<TokenV>, i: int) -> bool {
    canonical(toks, i) || i == toks.len()
}

/// Where the cursor stands after `next()` from `i`: past the next meaningful token;
/// when none is left, past everything (the trailing trivia too).
pub open spec fn next_idx(toks: Seq<TokenV>, i: int) -> int {
    let j = skip_trivia(toks, i);
    if j < toks.len() { j + 1 } else { toks.len() as int }
}

/// The input ends in trivia, so reaching the end is a step of its own.
pub open spec fn trailing(toks: Seq<TokenV>) -> bool {
    toks.len() > 0 && trivia(toks[toks.len() - 1])
}

/// What the cursor hands out, in order: the meaningful tokens, then `EOF` once
/// when trivia ends the input (reading it moves the cursor past that trivia).
pub open spec fn stream(toks: Seq<TokenV>) -> Seq<TokenV> {
    meaningful(toks, toks.len() as int) + if trailing(toks) { seq![TokenV::EOF] } else { Seq::empty() }
}

/// How far into `stream(toks)` the cursor at `i` stands.
pub open spec fn stream_pos(toks: Seq<TokenV>, i: int) -> nat {
    meaningful(toks, i).len() + if i == toks.len() && trailing(toks) { 1nat } else { 0nat }
}

/// What `next()` from `i` hands out.
pub open spec fn next_tok(toks: Seq<TokenV>, i: int) -> TokenV {
    let j = skip_trivia(toks, i);
    if j < toks.len() { toks[j] } else { TokenV::EOF }
}

/// Where the cursor stands after `back()` from `i`: before the previous meaningful
/// token and the trivia ahead of it; at the start of input it stays.
pub open spec fn back_idx(toks: Seq<TokenV>, i: int) -> int {
    let k = back_trivia(toks, i);
    if k <= 0 { i } else { back_trivia(toks, k - 1) }
}

/// The line (from 1) at position `i`: one more than the line breaks before it.
pub open spec fn line_at(toks: Seq<TokenV>, i: int) -> nat
    decreases i,
{
    if i <= 0 || i > toks.len() {
        1
    } else if toks[i - 1] is Line {
        line_at(toks, i - 1) + 1
    } else {
        line_at(toks, i - 1)
    }
}

/// The column at position `i`: the width of what lies between the last line break and `i`.
pub open spec fn column_at(toks: Seq<TokenV>, widths: Seq<usize>, i: int) -> nat
    decreases i,
{
    if i <= 0 || i > toks.len() || i > widths.len() {
        0
    } else if toks[i - 1] is Line {
        0
    } else {
        column_at(toks, widths, i - 1) + widths[i - 1] as nat
    }
}

/// The `n`-th line (from 1) of `s`, without its line break.
pub open spec fn source_line(s: Seq<char>, n: int) -> Option<Seq<char>>
    decreases s.len(), n,
{
    let k = until(s, 0, '\n');
    if n <= 0 {
        None
    } else if n == 1 {
        Some(s.take(k as int))
    } else if k < s.len() {
        source_line(s.skip(k + 1 as int), n - 1)
    } else {
        None
    }
}


proof fn lemma_skip_trivia(toks: Seq<TokenV>, i: int)
    requires
        0 <= i <= toks.len(),
    ensures
        i <= skip_trivia(toks, i) <= toks.len(),
        skip_trivia(toks, i) == toks.len() || !trivia(toks[skip_trivia(toks, i)]),
        forall|k: int| i <= k < skip_trivia(toks, i) ==> trivia(#[trigger] toks[k]),
    decreases toks.len() - i,
{
    if i < toks.len() && trivia(toks[i]) {
        lemma_skip_trivia(toks, i + 1);
    }
}

proof fn lemma_back_trivia(toks: Seq<TokenV>, i: int)
    requires
        0 <= i <= toks.len(),
    ensures
        0 <= back_trivia(toks, i) <= i,
        canonical(toks, back_trivia(toks, i)),
        forall|k: int| back_trivia(toks, i) <= k < i ==> trivia(#[trigger] toks[k]),
    decreases i,
{
    if 0 < i && trivia(toks[i - 1]) {
        lemma_back_trivia(toks, i - 1);
    }
}

/// Trivia adds nothing to the meaningful tokens.
proof fn lemma_meaningful_trivia(toks: Seq<TokenV>, i: int, j: int)
    requires
        0 <= i <= j <= toks.len(),
        forall|k: int| i <= k < j ==> trivia(#[trigger] toks[k]),
    ensures
        meaningful(toks, j) == meaningful(toks, i),
    decreases j - i,
{
    if i < j {
        assert(trivia(toks[j - 1]));
        lemma_meaningful_trivia(toks, i, j - 1);
    }
}

/// The meaningful tokens of a prefix are a prefix of the meaningful tokens.
proof fn lemma_meaningful_prefix(toks: Seq<TokenV>, n: int, m: int)
    requires
        0 <= n <= m <= toks.len(),
    ensures
        meaningful(toks, n).len() <= meaningful(toks, m).len(),
        meaningful(toks, m).take(meaningful(toks, n).len() as int) == meaningful(toks, n),
    decreases m - n,
{
    if n < m {
        lemma_meaningful_prefix(toks, n, m - 1);
        let a = meaningful(toks, n);
        let b = meaningful(toks, m - 1);
        if !trivia(toks[m - 1]) {
            assert(b.push(toks[m - 1]).take(a.len() as int) =~= b.take(a.len() as int));
        }
    } else {
        assert(meaningful(toks, n).take(meaningful(toks, n).len() as int) =~= meaningful(toks, n));
    }
}

/// One step forward from a cursor position.
pub proof fn lemma_next(toks: Seq<TokenV>, i: int)
    requires
        cursor_at(toks, i),
    ensures
        cursor_at(toks, next_idx(toks, i)),
        meaningful(toks, i).len() < meaningful(toks, toks.len() as int).len() ==> {
            &&& next_tok(toks, i) == meaningful(toks, toks.len() as int)[meaningful(toks, i).len() as int]
            &&& meaningful(toks, next_idx(toks, i)).len() == meaningful(toks, i).len() + 1
            &&& next_idx(toks, i) > i
            &&& canonical(toks, next_idx(toks, i))
            &&& canonical(toks, i)
        },
        meaningful(toks, i).len() >= meaningful(toks, toks.len() as int).len() ==> {
            &&& next_tok(toks, i) == TokenV::EOF
            &&& next_idx(toks, i) == toks.len()
            &&& forall|k: int| i <= k < toks.len() ==> trivia(#[trigger] toks[k])
        },
        meaningful(toks, i).len() <= meaningful(toks, toks.len() as int).len(),
{
    let n = toks.len() as int;
    let j = skip_trivia(toks, i);
    lemma_skip_trivia(toks, i);
    lemma_meaningful_trivia(toks, i, j);
    lemma_meaningful_prefix(toks, i, n);
    if j < n {
        lemma_meaningful_prefix(toks, j + 1, n);
        let a = meaningful(toks, i);
        assert(meaningful(toks, j + 1) == a.push(toks[j]));
        assert(meaningful(toks, n).take(a.len() + 1 as int)[a.len() as int] == toks[j]);
    } else {
        assert(j == n);
    }
}

/// `next()` in terms of what the cursor hands out.
pub proof fn lemma_stream_next(toks: Seq<TokenV>, i: int)
    requires
        cursor_at(toks, i),
    ensures
        stream_pos(toks, i) <= stream(toks).len(),
        cursor_at(toks, next_idx(toks, i)),
        stream_pos(toks, i) < stream(toks).len() ==> {
            &&& next_tok(toks, i) == stream(toks)[stream_pos(toks, i) as int]
            &&& stream_pos(toks, next_idx(toks, i)) == stream_pos(toks, i) + 1
        },
        stream_pos(toks, i) >= stream(toks).len() ==> {
            &&& next_tok(toks, i) == TokenV::EOF
            &&& next_idx(toks, i) == i
        },
{
    let n = toks.len() as int;
    let sig = meaningful(toks, n);
    lemma_next(toks, i);
    let p = meaningful(toks, i).len();
    if p < sig.len() {
        let j1 = next_idx(toks, i);
        assert(i < n);
        if j1 == n {
            assert(!trailing(toks));
        }
        assert(stream(toks)[p as int] == sig[p as int]);
    } else {
        if i < n {
            assert(trivia(toks[n - 1]));
            assert(trailing(toks));
            assert(stream(toks)[p as int] == TokenV::EOF);
        } else if trailing(toks) {
            assert(stream_pos(toks, i) == sig.len() + 1);
        }
    }
}

/// One step back from a cursor position.
pub proof fn lemma_back(toks: Seq<TokenV>, i: int)
    requires
        cursor_at(toks, i),
    ensures
        cursor_at(toks, back_idx(toks, i)),
        meaningful(toks, i).len() == 0 ==> back_idx(toks, i) == i,
        meaningful(toks, i).len() > 0 ==> {
            &&& meaningful(toks, back_idx(toks, i)).len() == meaningful(toks, i).len() - 1
            &&& canonical(toks, back_idx(toks, i))
            &&& back_idx(toks, i) < i
        },
        back_idx(toks, i) <= i,
{
    let k0 = back_trivia(toks, i);
    lemma_back_trivia(toks, i);
    lemma_meaningful_trivia(toks, k0, i);
    if k0 == 0 {
        assert(back_trivia(toks, 0) == 0);
    } else {
        assert(!trivia(toks[k0 - 1]));
        let k = back_trivia(toks, k0 - 1);
        lemma_back_trivia(toks, k0 - 1);
        lemma_meaningful_trivia(toks, k, k0 - 1);
        assert(meaningful(toks, k0) == meaningful(toks, k0 - 1).push(toks[k0 - 1]));
    }
}

/// No token of `toks` is `EOF`.
pub open spec fn no_eof(toks: Seq<TokenV>) -> bool {
    forall|k: int| 0 <= k < toks.len() ==> !(#[trigger] toks[k] is EOF)
}

proof fn lemma_meaningful_no_eof(toks: Seq<TokenV>, n: int)
    requires
        no_eof(toks),
    ensures
        no_eof(meaningful(toks, n)),
    decreases n,
{
    if 0 < n <= toks.len() {
        lemma_meaningful_no_eof(toks, n - 1);
        let m = meaningful(toks, n - 1);
        if !trivia(toks[n - 1]) {
            assert forall|k: int| 0 <= k < m.len() + 1 implies !(#[trigger] m.push(toks[n - 1])[k] is EOF) by {
                if k < m.len() {
                    assert(m.push(toks[n - 1])[k] == m[k]);
                }
            }
        }
    }
}

/// The scanner never makes an `EOF` token.
pub proof fn lemma_scan_no_eof(s: Seq<char>, i: int)
    ensures
        forall|k: int| 0 <= k < scan(s, i).len() ==> !(#[trigger] scan(s, i)[k].0 is EOF),
    decreases s.len() - i,
{
    if 0 <= i < s.len() {
        let r = lex_at(s, i);
        if r.1 != 0 && i + r.1 <= s.len() {
            lemma_scan_no_eof(s, i + r.1);
            let rest = scan(s, i + r.1);
            assert forall|k: int| 0 <= k < scan(s, i).len() implies !(#[trigger] scan(s, i)[k].0 is EOF) by {
                if k > 0 {
                    assert(scan(s, i)[k] == rest[k - 1]);
                }
            }
        }
    }
}

/// `back()` in terms of what the cursor hands out: one step back, or two when the
/// last step read the `EOF` that follows trailing trivia.
pub proof fn lemma_stream_back(toks: Seq<TokenV>, i: int)
    requires
        cursor_at(toks, i),
        no_eof(toks),
    ensures
        cursor_at(toks, back_idx(toks, i)),
        stream_pos(toks, i) == 0 ==> back_idx(toks, i) == i,
        stream_pos(toks, i) > 0 && !(stream(toks)[stream_pos(toks, i) - 1] is EOF) ==>
            stream_pos(toks, back_idx(toks, i)) == stream_pos(toks, i) - 1,
        stream_pos(toks, i) > 0 && stream(toks)[stream_pos(toks, i) - 1] is EOF ==>
            stream_pos(toks, back_idx(toks, i)) == if stream_pos(toks, i) >= 2 {
                stream_pos(toks, i) - 2
            } else {
                stream_pos(toks, i) as int
            },
{
    let n = toks.len() as int;
    let sig = meaningful(toks, n);
    lemma_back(toks, i);
    lemma_next(toks, i);
    let p = meaningful(toks, i).len();
    let b = back_idx(toks, i);
    lemma_meaningful_no_eof(toks, n);
    if i == n && trailing(toks) {
        assert(stream(toks)[sig.len() as int] is EOF);
        if p > 0 {
            assert(b < n);
        }
    } else if stream_pos(toks, i) > 0 {
        assert(p <= sig.len());
        if p > 0 {
            lemma_meaningful_prefix(toks, i, n);
            assert(stream(toks)[p - 1] == sig[p - 1]);
            assert(meaningful(toks, n).take(p as int)[p - 1] == sig[p - 1]);
            assert(b < n);
        }
    }
}

/// A cursor position is fixed by the number of meaningful tokens behind it.
pub proof fn lemma_canonical_unique(toks: Seq<TokenV>, i: int, j: int)
    requires
        canonical(toks, i),
        canonical(toks, j),
        meaningful(toks, i).len() == meaningful(toks, j).len(),
    ensures
        i == j,
{
    if i < j {
        assert(!trivia(toks[j - 1]));
        lemma_meaningful_prefix(toks, i, j - 1);
        assert(meaningful(toks, j) == meaningful(toks, j - 1).push(toks[j - 1]));
    } else if j < i {
        assert(!trivia(toks[i - 1]));
        lemma_meaningful_prefix(toks, j, i - 1);
        assert(meaningful(toks, i) == meaningful(toks, i - 1).push(toks[i - 1]));
    }
}

/// `back()` undoes `next()` whenever `next()` handed out a token.
pub proof fn lemma_back_next(toks: Seq<TokenV>, i: int)
    requires
        canonical(toks, i),
        meaningful(toks, i).len() < meaningful(toks, toks.len() as int).len(),
    ensures
        back_idx(toks, next_idx(toks, i)) == i,
{
    lemma_next(toks, i);
    lemma_back(toks, next_idx(toks, i));
    lemma_canonical_unique(toks, i, back_idx(toks, next_idx(toks, i)));
}

/// The cursor position with `m` meaningful tokens behind it.
pub open spec fn canon_idx(toks: Seq<TokenV>, m: nat) -> int
    decreases m,
{
    if m == 0 { 0 } else { next_idx(toks, canon_idx(toks, (m - 1) as nat)) }
}

pub proof fn lemma_canon_idx(toks: Seq<TokenV>, i: int)
    requires
        canonical(toks, i),
    ensures
        canon_idx(toks, meaningful(toks, i).len()) == i,
    decreases meaningful(toks, i).len(),
{
    let p = meaningful(toks, i).len();
    if p == 0 {
        if i > 0 {
            assert(meaningful(toks, i) == meaningful(toks, i - 1).push(toks[i - 1]));
        }
    } else {
        let k = back_idx(toks, i);
        lemma_back(toks, i);
        lemma_canon_idx(toks, k);
        lemma_next(toks, k);
        lemma_canonical_unique(toks, next_idx(toks, k), i);
    }
}

/// The place of the cursor that is `m` steps into `stream(toks)`.
pub open spec fn stream_idx(toks: Seq<TokenV>, m: nat) -> int {
    if m <= meaningful(toks, toks.len() as int).len() { canon_idx(toks, m) } else { toks.len() as int }
}

pub proof fn lemma_stream_idx(toks: Seq<TokenV>, i: int)
    requires
        cursor_at(toks, i),
    ensures
        stream_idx(toks, stream_pos(toks, i)) == i,
{
    let n = toks.len() as int;
    lemma_next(toks, i);
    if !(i == n && trailing(toks)) {
        assert(canonical(toks, i));
        lemma_canon_idx(toks, i);
    }
}

/// Position after `n` calls of `next()` from `i`.
pub open spec fn next_n(toks: Seq<TokenV>, i: int, n: nat) -> int
    decreases n,
{
    if n == 0 { i } else { next_n(toks, next_idx(toks, i), (n - 1) as nat) }
}

/// Position after `n` calls of `back()` from `i`.
pub open spec fn back_n(toks: Seq<TokenV>, i: int, n: nat) -> int
    decreases n,
{
    if n == 0 { i } else { back_idx(toks, back_n(toks, i, (n - 1) as nat)) }
}

/// Calling `next()` `n` times and then `back()` `n` times puts the cursor back where it
/// was, with the same line and column, as long as each `next()` found a token.
pub proof fn lemma_cursor_symmetry(toks: Seq<TokenV>, widths: Seq<usize>, i: int, n: nat)
    requires
        cursor_at(toks, i),
        meaningful(toks, i).len() + n <= meaningful(toks, toks.len() as int).len(),
    ensures
        back_n(toks, next_n(toks, i, n), n) == i,
        line_at(toks, back_n(toks, next_n(toks, i, n), n)) == line_at(toks, i),
        column_at(toks, widths, back_n(toks, next_n(toks, i, n), n)) == column_at(toks, widths, i),
    decreases n,
{
    if n > 0 {
        lemma_next(toks, i);
        let i1 = next_idx(toks, i);
        lemma_cursor_symmetry(toks, widths, i1, (n - 1) as nat);
        assert(back_n(toks, next_n(toks, i1, (n - 1) as nat), (n - 1) as nat) == i1);
        lemma_back_next(toks, i);
    }
}

/// The skipping that `skip_line` performs: forward until the line changes or input ends.
pub open spec fn line_end(toks: Seq<TokenV>, i: int, line: nat) -> int
    decreases toks.len() - i,
{
    let n = next_idx(toks, i);
    if n <= i || n > toks.len() || line_at(toks, n) != line {
        n
    } else {
        line_end(toks, n, line)
    }
}

/// A source text split into tokens, with a cursor over them.
pub struct Lexer {
    filename: String,
    source: String,
    chars: Vec<char>,
    data: Vec<Token>,
    widths: Vec<usize>,
    lines: Vec<usize>,
    columns: Vec<usize>,
    idx: usize,
}

impl Lexer {
    /// All tokens, trivia included, as views.
    pub closed spec fn tokens(&self) -> Seq<TokenV> {
        Seq::new(self.data@.len(), |k: int| self.data@[k]@)
    }

    /// What the cursor hands out, in order: the meaningful tokens, then `EOF` once
    /// when trivia ends the input.
    pub closed spec fn meaningful(&self) -> Seq<TokenV> {
        stream(self.tokens())
    }

    /// How far into `meaningful()` the cursor stands.
    pub closed spec fn pos(&self) -> nat {
        stream_pos(self.tokens(), self.idx as int)
    }

    pub closed spec fn index(&self) -> int {
        self.idx as int
    }

    pub closed spec fn source_text(&self) -> Seq<char> {
        self.source@
    }

    pub closed spec fn file_name(&self) -> Seq<char> {
        self.filename@
    }

    pub closed spec fn token_widths(&self) -> Seq<usize> {
        self.widths@
    }

    pub closed spec fn wf(&self) -> bool {
        &&& self.data@.len() == self.widths@.len()
        &&& self.chars@ == self.source@
        &&& pairs(self.data@, self.widths@) == scan(self.source@, 0)
        &&& self.lines@.len() == self.data@.len() + 1
        &&& self.columns@.len() == self.data@.len() + 1
        &&& forall|k: int| 0 <= k <= self.data@.len() ==> self.lines@[k] == line_at(self.tokens(), k)
        &&& forall|k: int| 0 <= k <= self.data@.len() ==> self.columns@[k] == column_at(
            self.tokens(),
            self.widths@,
            k,
        )
        &&& cursor_at(self.tokens(), self.idx as int)
        &&& no_eof(self.tokens())
    }
}

impl Lexer {
    /// Same text, tokens and tables as `other`, as far as callers can see.
    pub open spec fn keeps(&self, other: &Lexer) -> bool {
        &&& self.tokens() == other.tokens()
        &&& self.meaningful() == other.meaningful()
        &&& self.line_table() == other.line_table()
        &&& self.column_table() == other.column_table()
        &&& self.source_text() == other.source_text()
        &&& self.file_name() == other.file_name()
        &&& self.token_widths() == other.token_widths()
    }

    /// The line at each position in the meaningful tokens.
    pub closed spec fn line_table(&self) -> Seq<nat> {
        Seq::new(
            self.meaningful().len() + 1,
            |m: int| line_at(self.tokens(), stream_idx(self.tokens(), m as nat)),
        )
    }

    /// The column at each position in the meaningful tokens.
    pub closed spec fn column_table(&self) -> Seq<nat> {
        Seq::new(
            self.meaningful().len() + 1,
            |m: int| column_at(self.tokens(), self.widths@, stream_idx(self.tokens(), m as nat)),
        )
    }

    /// The cursor's state as a position in the meaningful tokens.
    pub proof fn lemma_pos(&self)
        requires
            self.wf(),
        ensures
            self.pos() <= self.meaningful().len(),
            cursor_at(self.tokens(), self.index()),
            self.line_table().len() == self.meaningful().len() + 1,
            self.column_table().len() == self.meaningful().len() + 1,
    {
        lemma_stream_next(self.tokens(), self.idx as int);
    }
}


fn is_trivia(t: &Token) -> (b: bool)
    ensures
        b == trivia(t@),
{
    match t {
        Token::Line | Token::Space | Token::Error => true,
        _ => false,
    }
}

proof fn lemma_width_sum_mono(ws: Seq<usize>, k: int, n: int)
    requires
        0 <= k <= n <= ws.len(),
    ensures
        width_sum(ws, k) <= width_sum(ws, n),
    decreases n - k,
{
    if k < n {
        lemma_width_sum_mono(ws, k, n - 1);
    }
}

proof fn lemma_until_shift(s: Seq<char>, a: int, i: int, q: char)
    requires
        0 <= a <= s.len(),
        0 <= i,
    ensures
        until(s.skip(a), i, q) == until(s, a + i, q),
    decreases s.len() - a - i,
{
    if a + i < s.len() && s[a + i] != q {
        lemma_until_shift(s, a, i + 1, q);
    }
}

impl Lexer {
    /// Scans `source` completely; the cursor starts before the first token.
    pub fn tokenization(filename: &str, source: &str) -> (r: Lexer)
        requires
            source@.len() < usize::MAX,
        ensures
            r.wf(),
            r.index() == 0,
            r.pos() == 0,
            r.source_text() == source@,
            r.file_name() == filename@,
            r.tokens().len() == scan(source@, 0).len(),
            r.token_widths().len() == r.tokens().len(),
            forall|k: int| 0 <= k < r.tokens().len() ==> #[trigger] r.tokens()[k] == scan(source@, 0)[k].0,
            forall|k: int| 0 <= k < r.tokens().len() ==> #[trigger] r.token_widths()[k] == scan(source@, 0)[k].1,
    {
        let chars = chars_of(source);
        let (data, widths) = scan_chars(&chars);
        proof {
            lemma_scan_no_eof(chars@, 0);
            assert forall|k: int| 0 <= k < data@.len() implies !(#[trigger] data@[k]@ is EOF) by {
                assert(pairs(data@, widths@)[k] == scan(chars@, 0)[k]);
                assert(pairs(data@, widths@)[k] == (data@[k]@, widths@[k] as nat));
                assert(!(scan(chars@, 0)[k].0 is EOF));
            }
        }
        let ghost toks = Seq::new(data@.len(), |k: int| data@[k]@);
        let mut lines: Vec<usize> = Vec::new();
        let mut columns: Vec<usize> = Vec::new();
        lines.push(1);
        columns.push(0);
        let mut k: usize = 0;
        while k < data.len()
            invariant
                k <= data@.len() == widths@.len() <= chars@.len() < usize::MAX,
                toks == Seq::new(data@.len(), |k: int| data@[k]@),
                lines@.len() == k + 1,
                columns@.len() == k + 1,
                forall|j: int| 0 <= j <= k ==> lines@[j] == line_at(toks, j),
                forall|j: int| 0 <= j <= k ==> columns@[j] == column_at(toks, widths@, j),
                lines@[k as int] <= k + 1,
                columns@[k as int] <= width_sum(widths@, k as int),
                width_sum(widths@, widths@.len() as int) == chars@.len(),
            decreases data@.len() - k,
        {
            let l = lines[k];
            let c = columns[k];
            let ghost old_lines = lines@;
            assert(l == line_at(toks, k as int));
            proof {
                lemma_width_sum_mono(widths@, k + 1, widths@.len() as int);
            }
            assert(toks[k as int] == data@[k as int]@);
            match &data[k] {
                Token::Line => {
                    assert(toks[k as int] is Line);
                    assert(l == line_at(toks, k as int));
                    assert(line_at(toks, k + 1) == l + 1);
                    lines.push(l + 1);
                    columns.push(0);
                },
                _ => {
                    assert(!(toks[k as int] is Line));
                    assert(line_at(toks, k + 1) == l);
                    lines.push(l);
                    columns.push(c + widths[k]);
                },
            }
            assert(lines@[k + 1] == line_at(toks, k + 1));
            assert forall|j: int| 0 <= j <= k + 1 implies lines@[j] == line_at(toks, j) by {
                if j <= k {
                    assert(lines@[j] == old_lines[j]);
                }
            }
            k = k + 1;
        }
        Lexer {
            filename: filename.to_owned(),
            source: source.to_owned(),
            chars,
            data,
            widths,
            lines,
            columns,
            idx: 0,
        }
    }

    /// Hands out the next meaningful token and steps past it. When none is left it steps
    /// past the trailing blanks and line breaks (counting the lines) and hands out `EOF`.
    pub fn next(&mut self) -> (t: Token)
        requires
            old(self).wf(),
        ensures
            final(self).wf(),
            final(self).keeps(old(self)),
            final(self).index() == next_idx(old(self).tokens(), old(self).index()),
            t@ == next_tok(old(self).tokens(), old(self).index()),
            old(self).pos() < old(self).meaningful().len() ==> {
                &&& t@ == old(self).meaningful()[old(self).pos() as int]
                &&& final(self).pos() == old(self).pos() + 1
            },
            old(self).pos() >= old(self).meaningful().len() ==> {
                &&& t@ == TokenV::EOF
                &&& final(self).pos() == old(self).pos()
            },
    {
        proof {
            lemma_next(self.tokens(), self.idx as int);
            lemma_stream_next(self.tokens(), self.idx as int);
        }
        let ghost toks = self.tokens();
        let mut j: usize = self.idx;
        while j < self.data.len() && is_trivia(&self.data[j])
            invariant
                self.idx <= j <= self.data@.len(),
                toks == self.tokens(),
                skip_trivia(toks, self.idx as int) == skip_trivia(toks, j as int),
            decreases self.data@.len() - j,
        {
            j = j + 1;
        }
        if j < self.data.len() {
            self.idx = j + 1;
            self.data[j].duplicate()
        } else {
            self.idx = j;
            Token::EOF
        }
    }

    /// The token `next()` would hand out; the cursor does not move.
    pub fn peek(&self) -> (t: Token)
        requires
            self.wf(),
        ensures
            t@ == next_tok(self.tokens(), self.index()),
            self.pos() < self.meaningful().len() ==> t@ == self.meaningful()[self.pos() as int],
            self.pos() >= self.meaningful().len() ==> t@ == TokenV::EOF,
    {
        proof {
            lemma_stream_next(self.tokens(), self.idx as int);
        }
        let ghost toks = self.tokens();
        let mut j: usize = self.idx;
        while j < self.data.len() && is_trivia(&self.data[j])
            invariant
                self.idx <= j <= self.data@.len(),
                toks == self.tokens(),
                skip_trivia(toks, self.idx as int) == skip_trivia(toks, j as int),
            decreases self.data@.len() - j,
        {
            j = j + 1;
        }
        if j < self.data.len() {
            self.data[j].duplicate()
        } else {
            Token::EOF
        }
    }

    /// Steps back before the previous meaningful token and the trivia ahead of it; at the
    /// start, does nothing.
    pub fn back(&mut self)
        requires
            old(self).wf(),
        ensures
            final(self).wf(),
            final(self).keeps(old(self)),
            final(self).index() == back_idx(old(self).tokens(), old(self).index()),
            old(self).pos() == 0 ==> final(self).pos() == 0,
            old(self).pos() > 0 && !(old(self).meaningful()[old(self).pos() - 1] is EOF) ==>
                final(self).pos() == old(self).pos() - 1,
            old(self).pos() > 0 && old(self).meaningful()[old(self).pos() - 1] is EOF ==>
                final(self).pos() == if old(self).pos() >= 2 {
                    old(self).pos() - 2
                } else {
                    old(self).pos() as int
                },
    {
        proof {
            lemma_back(self.tokens(), self.idx as int);
            lemma_stream_back(self.tokens(), self.idx as int);
        }
        let ghost toks = self.tokens();
        let mut k: usize = self.idx;
        while k > 0 && is_trivia(&self.data[k - 1])
            invariant
                k <= self.idx <= self.data@.len(),
                toks == self.tokens(),
                back_trivia(toks, self.idx as int) == back_trivia(toks, k as int),
            decreases k,
        {
            k = k - 1;
        }
        if k > 0 {
            let mut m: usize = k - 1;
            while m > 0 && is_trivia(&self.data[m - 1])
                invariant
                    m < k <= self.data@.len(),
                    toks == self.tokens(),
                    back_trivia(toks, k - 1) == back_trivia(toks, m as int),
                decreases m,
            {
                m = m - 1;
            }
            self.idx = m;
        }
    }

    /// Consumes the next meaningful token (the one `peek()` shows).
    pub fn skip(&mut self)
        requires
            old(self).wf(),
        ensures
            final(self).wf(),
            final(self).keeps(old(self)),
            final(self).index() == next_idx(old(self).tokens(), old(self).index()),
            old(self).pos() < old(self).meaningful().len() ==> final(self).pos() == old(self).pos() + 1,
            old(self).pos() >= old(self).meaningful().len() ==> final(self).pos() == old(self).pos(),
    {
        let _ = self.next();
    }

    /// Moves forward until the line changes (or input ends), then back one token.
    pub fn skip_line(&mut self)
        requires
            old(self).wf(),
        ensures
            final(self).wf(),
            final(self).keeps(old(self)),
            final(self).index() == back_idx(
                old(self).tokens(),
                line_end(old(self).tokens(), old(self).index(), line_at(old(self).tokens(), old(self).index())),
            ),
    {
        let ghost toks = self.tokens();
        let ghost start = self.idx as int;
        let line = self.line();
        loop
            invariant_except_break
                line_end(toks, start, line as nat) == line_end(toks, self.idx as int, line as nat),
            invariant
                self.wf(),
                self.tokens() == toks,
                self.keeps(old(self)),
                line == line_at(toks, start),
            ensures
                self.wf(),
                self.tokens() == toks,
                self.keeps(old(self)),
                self.idx == line_end(toks, start, line as nat),
            decreases self.data@.len() - self.idx,
        {
            let before = self.idx;
            proof {
                lemma_next(toks, self.idx as int);
            }
            let _ = self.next();
            if self.idx <= before || self.line() != line {
                break;
            }
        }
        self.back();
    }

    /// The next token's name, when it is an identifier (the token is consumed either way).
    pub fn next_identifier(&mut self) -> (r: Option<String>)
        requires
            old(self).wf(),
        ensures
            final(self).wf(),
            final(self).keeps(old(self)),
            final(self).index() == next_idx(old(self).tokens(), old(self).index()),
            match next_tok(old(self).tokens(), old(self).index()) {
                TokenV::Identifier(n) => r is Some && r->0@ == n,
                _ => r is None,
            },
    {
        match self.next() {
            Token::Identifier(name) => Some(name),
            _ => None,
        }
    }

    /// Puts the cursor back at the start of input.
    pub fn reset(&mut self)
        requires
            old(self).wf(),
        ensures
            final(self).wf(),
            final(self).keeps(old(self)),
            final(self).index() == 0,
            final(self).pos() == 0,
    {
        self.idx = 0;
    }

    /// The current line, from 1.
    pub fn line(&self) -> (r: usize)
        requires
            self.wf(),
        ensures
            r == line_at(self.tokens(), self.index()),
            r == self.line_table()[self.pos() as int],
    {
        proof {
            lemma_stream_idx(self.tokens(), self.idx as int);
            lemma_stream_next(self.tokens(), self.idx as int);
        }
        self.lines[self.idx]
    }

    /// The current column: the width of the text consumed since the last line break.
    pub fn column(&self) -> (r: usize)
        requires
            self.wf(),
        ensures
            r == column_at(self.tokens(), self.token_widths(), self.index()),
            r == self.column_table()[self.pos() as int],
    {
        proof {
            lemma_stream_idx(self.tokens(), self.idx as int);
            lemma_stream_next(self.tokens(), self.idx as int);
        }
        self.columns[self.idx]
    }

    pub fn filename(&self) -> (r: &str)
        ensures
            r@ == self.file_name(),
    {
        self.filename.as_str()
    }

    pub fn source(&self) -> (r: &str)
        ensures
            r@ == self.source_text(),
    {
        self.source.as_str()
    }

    /// The text of line `line_number` (from 1), without its line break.
    pub fn get_source_line(&self, line_number: usize) -> (r: Option<&str>)
        requires
            self.wf(),
        ensures
            match r {
                Some(t) => source_line(self.source_text(), line_number as int) == Some(t@),
                None => source_line(self.source_text(), line_number as int) is None,
            },
    {
        let ghost s = self.source@;
        if line_number == 0 {
            return None;
        }
        let len = self.chars.len();
        let mut start: usize = 0;
        let mut cur: usize = 1;
        assert(s.skip(0) =~= s);
        while cur < line_number
            invariant
                self.wf(),
                s == self.source@,
                len == s.len(),
                1 <= cur <= line_number,
                start <= len,
                source_line(s, line_number as int) == source_line(s.skip(start as int), line_number - cur + 1),
            decreases line_number - cur,
        {
            let k = count_until(&self.chars, start, '\n');
            proof {
                lemma_until_shift(s, start as int, 0, '\n');
            }
            if start + k < len {
                assert(s.skip(start as int).skip(k + 1 as int) =~= s.skip(start + k + 1));
                start = start + k + 1;
                cur = cur + 1;
            } else {
                return None;
            }
        }
        let k = count_until(&self.chars, start, '\n');
        proof {
            lemma_until_shift(s, start as int, 0, '\n');
            assert(s.skip(start as int).take(k as int) =~= s.subrange(start as int, start + k));
        }
        Some(self.source.as_str().substring_char(start, start + k))
    }
}

} // verus!
