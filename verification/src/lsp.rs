use vstd::prelude::*;

use crate::text::{chars_of, string_from_chars};

verus! {

/// A position in a text document as the language server protocol counts it: a line
/// and a character offset in UTF-16 code units, both from zero.
#[derive(Debug, Clone, Copy, PartialEq, Eq, Structural)]
pub struct Position {
    pub line: u32,
    pub character: u32,
}

impl Position {
    pub fn new(line: u32, character: u32) -> (p: Position)
        ensures
            p.line == line && p.character == character,
    {
        Position { line, character }
    }
}

/// A range in a text document, from `start` to `end`.
#[derive(Debug, Clone, Copy, PartialEq, Eq, Structural)]
pub struct Range {
    pub start: Position,
    pub end: Position,
}

impl Range {
    pub fn new(start: Position, end: Position) -> (r: Range)
        ensures
            r.start == start && r.end == end,
    {
        Range { start, end }
    }
}

/// Position `a` comes before position `b` (by line, then by character).
pub open spec fn before(a: Position, b: Position) -> bool {
    a.line < b.line || (a.line == b.line && a.character < b.character)
}

/// Two ranges overlap when neither ends before the other starts; ranges that touch
/// at a boundary overlap.
pub fn ranges_overlap(a: &Range, b: &Range) -> (r: bool)
    ensures
        r == !(before(a.end, b.start) || before(b.end, a.start)),
{
    let a_ends_first = a.end.line < b.start.line || (a.end.line == b.start.line && a.end.character < b.start.character);
    let b_ends_first = b.end.line < a.start.line || (b.end.line == a.start.line && b.end.character < a.start.character);
    !(a_ends_first || b_ends_first)
}

// ---------------------------------------------------------------------------
// Lines and encodings
// ---------------------------------------------------------------------------

/// The lines of a text as `str::lines` gives them: split at each `\n`, with a `\r`
/// right before it dropped, and no empty line after a final `\n`. `cur` is the part of
/// the current line read so far.
pub open spec fn lines_acc(cur: Seq<char>, rest: Seq<char>) -> Seq<Seq<char>>
    decreases rest.len(),
{
    if rest.len() == 0 {
        if cur.len() == 0 { Seq::empty() } else { seq![cur] }
    } else if rest[0] == '\n' {
        seq![if cur.len() > 0 && cur.last() == '\r' { cur.drop_last() } else { cur }] + lines_acc(Seq::empty(), rest.skip(1))
    } else {
        lines_acc(cur.push(rest[0]), rest.skip(1))
    }
}

/// The lines of a text (`str::lines`).
pub open spec fn text_lines(s: Seq<char>) -> Seq<Seq<char>> {
    lines_acc(Seq::empty(), s)
}

/// The lines of a text, as `str::lines` gives them.
pub fn lines_of(text: &str) -> (r: Vec<Vec<char>>)
    ensures
        r@.len() == text_lines(text@).len(),
        forall|i: int| 0 <= i < r@.len() ==> #[trigger] r@[i]@ == text_lines(text@)[i],
{
    let s = chars_of(text);
    let mut out: Vec<Vec<char>> = Vec::new();
    let mut cur: Vec<char> = Vec::new();
    let mut i: usize = 0;
    let ghost outs: Seq<Seq<char>> = Seq::empty();
    proof { assert(s@.skip(0) =~= s@); }
    while i < s.len()
        invariant
            s@ == text@,
            i <= s@.len(),
            out@.len() == outs.len(),
            forall|k: int| 0 <= k < out@.len() ==> #[trigger] out@[k]@ == outs[k],
            text_lines(text@) == outs + lines_acc(cur@, s@.skip(i as int)),
        decreases s@.len() - i,
    {
        let c = s[i];
        proof {
            assert(s@.skip(i as int)[0] == c);
            assert(s@.skip(i as int).skip(1) =~= s@.skip(i + 1));
        }
        if c == '\n' {
            let ghost line = if cur@.len() > 0 && cur@.last() == '\r' { cur@.drop_last() } else { cur@ };
            if cur.len() > 0 && cur[cur.len() - 1] == '\r' {
                cur.pop();
            }
            proof { assert(cur@ == line); }
            out.push(cur);
            cur = Vec::new();
            proof {
                assert((outs + seq![line]) + lines_acc(Seq::empty(), s@.skip(i + 1)) =~= outs + (seq![line] + lines_acc(Seq::empty(), s@.skip(i + 1))));
                outs = outs.push(line);
                assert(outs + lines_acc(cur@, s@.skip(i + 1)) =~= (outs.drop_last() + seq![line]) + lines_acc(Seq::<char>::empty(), s@.skip(i + 1)));
            }
        } else {
            cur.push(c);
        }
        i = i + 1;
    }
    proof { assert(s@.skip(i as int) =~= Seq::<char>::empty()); }
    if cur.len() > 0 {
        out.push(cur);
        proof {
            assert(lines_acc(cur@, Seq::<char>::empty()) == seq![cur@]);
            outs = outs.push(cur@);
        }
    } else {
        proof { assert(outs + lines_acc(cur@, Seq::<char>::empty()) =~= outs); }
    }
    proof { assert(text_lines(text@) =~= outs); }
    out
}

/// The number of UTF-8 bytes of a character.
pub open spec fn utf8_width(c: char) -> nat {
    if (c as u32) < 0x80 { 1 } else if (c as u32) < 0x800 { 2 } else if (c as u32) < 0x10000 { 3 } else { 4 }
}

/// The number of UTF-16 code units of a character.
pub open spec fn utf16_width(c: char) -> nat {
    if (c as u32) < 0x10000 { 1 } else { 2 }
}

/// The number of UTF-8 bytes of a text.
pub open spec fn utf8_len(s: Seq<char>) -> nat
    decreases s.len(),
{
    if s.len() == 0 { 0 } else { utf8_len(s.drop_last()) + utf8_width(s.last()) }
}

/// The number of UTF-16 code units of a text.
pub open spec fn utf16_len(s: Seq<char>) -> nat
    decreases s.len(),
{
    if s.len() == 0 { 0 } else { utf16_len(s.drop_last()) + utf16_width(s.last()) }
}

/// The number of UTF-8 bytes of a character.
pub fn utf8_width_of(c: char) -> (n: usize)
    ensures
        n == utf8_width(c),
{
    char_utf8_width(c)
}

fn char_utf8_width(c: char) -> (n: usize)
    ensures
        n == utf8_width(c),
{
    let v = c as u32;
    if v < 0x80 { 1 } else if v < 0x800 { 2 } else if v < 0x10000 { 3 } else { 4 }
}

fn char_utf16_width(c: char) -> (n: usize)
    ensures
        n == utf16_width(c),
{
    if (c as u32) < 0x10000 { 1 } else { 2 }
}

proof fn lemma_len_step(s: Seq<char>, j: int)
    requires
        0 <= j < s.len(),
    ensures
        utf8_len(s.take(j + 1)) == utf8_len(s.take(j)) + utf8_width(s[j]),
        utf16_len(s.take(j + 1)) == utf16_len(s.take(j)) + utf16_width(s[j]),
{
    assert(s.take(j + 1).drop_last() =~= s.take(j));
}

proof fn lemma_utf16_le_utf8(s: Seq<char>)
    ensures
        utf16_len(s) <= utf8_len(s),
    decreases s.len(),
{
    if s.len() > 0 {
        lemma_utf16_le_utf8(s.drop_last());
    }
}

proof fn lemma_len_prefix(s: Seq<char>, j: int)
    requires
        0 <= j <= s.len(),
    ensures
        utf8_len(s.take(j)) <= utf8_len(s),
        utf16_len(s.take(j)) <= utf16_len(s),
    decreases s.len() - j,
{
    if j < s.len() {
        lemma_len_step(s, j);
        lemma_len_prefix(s, j + 1);
    } else {
        assert(s.take(j) =~= s);
    }
}

/// The byte offset within a line of the first character at which at least `target`
/// UTF-16 units lie before it (looking from character `j` on), or the line's length.
pub open spec fn byte_at_utf16(line: Seq<char>, target: nat, j: int) -> nat
    decreases line.len() - j,
{
    if j >= line.len() || j < 0 {
        utf8_len(line)
    } else if utf16_len(line.take(j)) >= target {
        utf8_len(line.take(j))
    } else {
        byte_at_utf16(line, target, j + 1)
    }
}

/// The byte offset of an LSP position, counting from line `k` whose first byte is at
/// `acc`; each line counts its bytes and one for its line break. A position past the
/// last line gives the offset after all lines.
pub open spec fn offset_of(lines: Seq<Seq<char>>, pos: Position, k: int, acc: nat) -> nat
    decreases lines.len() - k,
{
    if k >= lines.len() || k < 0 {
        acc
    } else if k == pos.line {
        acc + byte_at_utf16(lines[k], pos.character as nat, 0)
    } else {
        offset_of(lines, pos, k + 1, acc + utf8_len(lines[k]) + 1)
    }
}

/// The bytes of all lines, with one for each line break.
pub open spec fn lines_bytes(lines: Seq<Seq<char>>) -> nat
    decreases lines.len(),
{
    if lines.len() == 0 { 0 } else { lines_bytes(lines.drop_last()) + utf8_len(lines.last()) + 1 }
}

proof fn lemma_lines_bytes_step(lines: Seq<Seq<char>>, k: int)
    requires
        0 <= k < lines.len(),
    ensures
        lines_bytes(lines.take(k + 1)) == lines_bytes(lines.take(k)) + utf8_len(lines[k]) + 1,
{
    assert(lines.take(k + 1).drop_last() =~= lines.take(k));
}

proof fn lemma_lines_bytes_prefix(lines: Seq<Seq<char>>, k: int)
    requires
        0 <= k <= lines.len(),
    ensures
        lines_bytes(lines.take(k)) <= lines_bytes(lines),
    decreases lines.len() - k,
{
    if k < lines.len() {
        lemma_lines_bytes_step(lines, k);
        lemma_lines_bytes_prefix(lines, k + 1);
    } else {
        assert(lines.take(k) =~= lines);
    }
}

proof fn lemma_byte_at_le(line: Seq<char>, target: nat, j: int)
    requires
        0 <= j,
    ensures
        byte_at_utf16(line, target, j) <= utf8_len(line),
    decreases line.len() - j,
{
    if j < line.len() {
        lemma_len_prefix(line, j);
        lemma_byte_at_le(line, target, j + 1);
    }
}

/// The number of UTF-8 bytes of the characters.
pub fn utf8_len_of(v: &Vec<char>) -> (r: usize)
    requires
        utf8_len(v@) <= usize::MAX,
    ensures
        r == utf8_len(v@),
{
    let mut j: usize = 0;
    let mut n: usize = 0;
    while j < v.len()
        invariant
            j <= v@.len(),
            utf8_len(v@) <= usize::MAX,
            n == utf8_len(v@.take(j as int)),
        decreases v@.len() - j,
    {
        proof {
            lemma_len_step(v@, j as int);
            lemma_len_prefix(v@, j + 1);
        }
        n = n + char_utf8_width(v[j]);
        j = j + 1;
    }
    proof { assert(v@.take(j as int) =~= v@); }
    n
}

/// The byte offset in a line of the first character with `target` UTF-16 units before it.
fn line_byte_at_utf16(line: &Vec<char>, target: usize) -> (r: usize)
    requires
        utf8_len(line@) <= usize::MAX,
    ensures
        r == byte_at_utf16(line@, target as nat, 0),
{
    let mut j: usize = 0;
    let mut bytes: usize = 0;
    let mut units: usize = 0;
    while j < line.len()
        invariant
            j <= line@.len(),
            utf8_len(line@) <= usize::MAX,
            bytes == utf8_len(line@.take(j as int)),
            units == utf16_len(line@.take(j as int)),
            byte_at_utf16(line@, target as nat, 0) == byte_at_utf16(line@, target as nat, j as int),
        decreases line@.len() - j,
    {
        if units >= target {
            return bytes;
        }
        proof {
            lemma_len_step(line@, j as int);
            lemma_len_prefix(line@, j + 1);
            lemma_utf16_le_utf8(line@.take(j + 1));
        }
        bytes = bytes + char_utf8_width(line[j]);
        units = units + char_utf16_width(line[j]);
        j = j + 1;
    }
    proof {
        assert(line@.take(j as int) =~= line@);
    }
    bytes
}

/// Converts an LSP position (UTF-16 code units) to a byte offset in the text.
pub fn lsp_position_to_byte_offset(text: &str, position: Position) -> (r: usize)
    requires
        lines_bytes(text_lines(text@)) <= usize::MAX,
    ensures
        r == offset_of(text_lines(text@), position, 0, 0),
{
    let lines = lines_of(text);
    let ghost ls = text_lines(text@);
    let mut k: usize = 0;
    let mut acc: usize = 0;
    proof { assert(ls.take(0) =~= Seq::<Seq<char>>::empty()); }
    while k < lines.len()
        invariant
            ls == text_lines(text@),
            lines@.len() == ls.len(),
            forall|i: int| 0 <= i < lines@.len() ==> #[trigger] lines@[i]@ == ls[i],
            lines_bytes(ls) <= usize::MAX,
            k <= ls.len(),
            acc == lines_bytes(ls.take(k as int)),
            offset_of(ls, position, 0, 0) == offset_of(ls, position, k as int, acc as nat),
        decreases ls.len() - k,
    {
        proof {
            lemma_lines_bytes_step(ls, k as int);
            lemma_lines_bytes_prefix(ls, k + 1);
            assert(lines@[k as int]@ == ls[k as int]);
        }
        if k == position.line as usize {
            let within = line_byte_at_utf16(&lines[k], position.character as usize);
            proof {
                lemma_byte_at_le(ls[k as int], position.character as nat, 0);
                assert(k as int == position.line as int);
                assert(offset_of(ls, position, k as int, acc as nat) == acc + byte_at_utf16(ls[k as int], position.character as nat, 0));
            }
            return acc + within;
        }
        acc = acc + utf8_len_of(&lines[k]) + 1;
        k = k + 1;
    }
    acc
}

/// The UTF-16 units before the first character of a line (from character `j` on) at
/// which at least `b` bytes lie before it, or of the whole line.
pub open spec fn units_before_byte(line: Seq<char>, b: nat, j: int) -> nat
    decreases line.len() - j,
{
    if j < 0 {
        0
    } else if j >= line.len() {
        utf16_len(line)
    } else if utf8_len(line.take(j)) >= b {
        utf16_len(line.take(j))
    } else {
        units_before_byte(line, b, j + 1)
    }
}

/// The line and UTF-16 character of a byte offset, looking from line `k` whose first
/// byte is at `start`: the first line whose end is at or after the offset; past the
/// last line, the line after it and character zero.
pub open spec fn position_of(lines: Seq<Seq<char>>, offset: nat, k: int, start: nat) -> (nat, nat)
    decreases lines.len() - k,
{
    if k < 0 || k >= lines.len() {
        (if k < 0 { 0 } else { k as nat }, 0)
    } else if offset <= start + utf8_len(lines[k]) {
        (k as nat, units_before_byte(lines[k], (offset - start) as nat, 0))
    } else {
        position_of(lines, offset, k + 1, start + utf8_len(lines[k]) + 1)
    }
}

/// The LSP position of a byte offset (see `position_of`); the character count is
/// truncated to 32 bits.
pub open spec fn lsp_position_of(text: Seq<char>, offset: nat) -> Position {
    let p = position_of(text_lines(text), offset, 0, 0);
    Position { line: p.0 as u32, character: p.1 as u32 }
}

proof fn lemma_units_before_le(line: Seq<char>, b: nat, j: int)
    requires
        0 <= j,
    ensures
        units_before_byte(line, b, j) <= utf8_len(line),
    decreases line.len() - j,
{
    if j >= line.len() {
        lemma_utf16_le_utf8(line);
    } else if utf8_len(line.take(j)) < b {
        lemma_units_before_le(line, b, j + 1);
    } else {
        lemma_len_prefix(line, j);
        lemma_utf16_le_utf8(line.take(j));
    }
}

/// The UTF-16 units before byte `b` of a line (see `units_before_byte`).
fn line_units_before_byte(line: &Vec<char>, b: usize) -> (r: usize)
    requires
        utf8_len(line@) <= usize::MAX,
    ensures
        r == units_before_byte(line@, b as nat, 0),
{
    let mut j: usize = 0;
    let mut bytes: usize = 0;
    let mut units: usize = 0;
    while j < line.len()
        invariant
            j <= line@.len(),
            utf8_len(line@) <= usize::MAX,
            bytes == utf8_len(line@.take(j as int)),
            units == utf16_len(line@.take(j as int)),
            units_before_byte(line@, b as nat, 0) == units_before_byte(line@, b as nat, j as int),
        decreases line@.len() - j,
    {
        if bytes >= b {
            return units;
        }
        proof {
            lemma_len_step(line@, j as int);
            lemma_len_prefix(line@, j + 1);
            lemma_utf16_le_utf8(line@.take(j + 1));
        }
        bytes = bytes + char_utf8_width(line[j]);
        units = units + char_utf16_width(line[j]);
        j = j + 1;
    }
    proof { assert(line@.take(j as int) =~= line@); }
    units
}

/// Converts a byte offset in the text to an LSP position (UTF-16 code units).
pub fn byte_offset_to_lsp_position(text: &str, offset: usize) -> (r: Position)
    requires
        lines_bytes(text_lines(text@)) <= usize::MAX,
        text_lines(text@).len() <= u32::MAX,
    ensures
        r == lsp_position_of(text@, offset as nat),
{
    let lines = lines_of(text);
    let ghost ls = text_lines(text@);
    let mut k: usize = 0;
    let mut start: usize = 0;
    proof { assert(ls.take(0) =~= Seq::<Seq<char>>::empty()); }
    while k < lines.len()
        invariant
            ls == text_lines(text@),
            lines@.len() == ls.len(),
            ls.len() <= u32::MAX,
            forall|i: int| 0 <= i < lines@.len() ==> #[trigger] lines@[i]@ == ls[i],
            lines_bytes(ls) <= usize::MAX,
            k <= ls.len(),
            start == lines_bytes(ls.take(k as int)),
            offset >= start,
            position_of(ls, offset as nat, 0, 0) == position_of(ls, offset as nat, k as int, start as nat),
        decreases ls.len() - k,
    {
        proof {
            lemma_lines_bytes_step(ls, k as int);
            lemma_lines_bytes_prefix(ls, k + 1);
            assert(lines@[k as int]@ == ls[k as int]);
        }
        let end = start + utf8_len_of(&lines[k]);
        if offset <= end {
            let units = line_units_before_byte(&lines[k], offset - start);
            proof { lemma_units_before_le(ls[k as int], (offset - start) as nat, 0); }
            return Position { line: k as u32, character: #[verifier::truncate] (units as u32) };
        }
        start = end + 1;
        k = k + 1;
    }
    Position { line: k as u32, character: 0 }
}

/// Converts a byte span to an LSP range.
pub fn byte_span_to_lsp_range(text: &str, start: usize, end: usize) -> (r: Range)
    requires
        lines_bytes(text_lines(text@)) <= usize::MAX,
        text_lines(text@).len() <= u32::MAX,
    ensures
        r.start == lsp_position_of(text@, start as nat),
        r.end == lsp_position_of(text@, end as nat),
{
    Range { start: byte_offset_to_lsp_position(text, start), end: byte_offset_to_lsp_position(text, end) }
}

/// The LSP position of a byte offset, for code actions (see `lsp_position_of`).
pub fn byte_offset_to_position(text: &str, offset: usize) -> (r: Position)
    requires
        lines_bytes(text_lines(text@)) <= usize::MAX,
        text_lines(text@).len() <= u32::MAX,
    ensures
        r == lsp_position_of(text@, offset as nat),
{
    byte_offset_to_lsp_position(text, offset)
}

/// The text of a range that lies on one line, by character offsets; nothing when the
/// range spans lines, its line does not exist, or it does not fit in the line.
pub open spec fn text_at_range(text: Seq<char>, range: Range) -> Option<Seq<char>> {
    let lines = text_lines(text);
    if range.start.line != range.end.line || range.start.line >= lines.len() {
        None
    } else {
        let line = lines[range.start.line as int];
        if range.start.character <= range.end.character && range.end.character <= line.len() {
            Some(line.subrange(range.start.character as int, range.end.character as int))
        } else {
            None
        }
    }
}

/// Extracts the text of a one-line range (see `text_at_range`).
pub fn extract_text_at_range(text: &str, range: &Range) -> (r: Option<String>)
    ensures
        match r {
            Some(s) => text_at_range(text@, *range) == Some(s@),
            None => text_at_range(text@, *range) is None,
        },
{
    let lines = lines_of(text);
    if range.start.line != range.end.line || range.start.line as usize >= lines.len() {
        return None;
    }
    let line = &lines[range.start.line as usize];
    let a = range.start.character as usize;
    let b = range.end.character as usize;
    if a <= b && b <= line.len() {
        let mut out: Vec<char> = Vec::new();
        let mut i: usize = a;
        while i < b
            invariant
                a <= i <= b,
                b <= line@.len(),
                out@ == line@.subrange(a as int, i as int),
            decreases b - i,
        {
            out.push(line[i]);
            i = i + 1;
            proof { assert(out@ =~= line@.subrange(a as int, i as int)); }
        }
        Some(string_from_chars(out.as_slice()))
    } else {
        None
    }
}

/// The first index at or after `i` where `pat` occurs in `s`.
pub open spec fn find_from(s: Seq<char>, pat: Seq<char>, i: int) -> Option<int>
    decreases s.len() + 1 - i,
{
    if i < 0 || i + pat.len() > s.len() {
        None
    } else if s.subrange(i, i + pat.len()) == pat {
        Some(i)
    } else {
        find_from(s, pat, i + 1)
    }
}

/// The marker that precedes a plugin's name in a "plugin not found" message.
pub open spec fn not_found_marker() -> Seq<char> {
    "Plugin not found: '"@
}

/// The plugin named in a "plugin not found" message: the text after the first
/// `Plugin not found: '` up to the next `'`.
pub open spec fn plugin_name_in(msg: Seq<char>) -> Option<Seq<char>> {
    match find_from(msg, not_found_marker(), 0) {
        Some(i) => {
            let rest = msg.skip(i + not_found_marker().len());
            match find_from(rest, seq!['\''], 0) {
                Some(j) => Some(rest.take(j)),
                None => None,
            }
        },
        None => None,
    }
}

proof fn lemma_find_from(s: Seq<char>, pat: Seq<char>, f: int)
    ensures
        match find_from(s, pat, f) {
            Some(i) => f <= i && 0 <= i && i + pat.len() <= s.len() && s.subrange(i, i + pat.len()) == pat,
            None => true,
        },
    decreases s.len() + 1 - f,
{
    if !(f < 0 || f + pat.len() > s.len()) && s.subrange(f, f + pat.len()) != pat {
        lemma_find_from(s, pat, f + 1);
    }
}

/// The first index at or after `from` where `pat` occurs in `s` (see `find_from`).
fn find_chars(s: &Vec<char>, pat: &Vec<char>, from: usize) -> (r: Option<usize>)
    requires
        from <= s@.len(),
    ensures
        match r {
            Some(i) => find_from(s@, pat@, from as int) == Some(i as int),
            None => find_from(s@, pat@, from as int) is None,
        },
{
    let mut i: usize = from;
    while i <= s.len()
        invariant
            from <= i,
            find_from(s@, pat@, from as int) == find_from(s@, pat@, i as int),
        decreases s@.len() + 1 - i,
    {
        if pat.len() > s.len() - i {
            return None;
        }
        if crate::text::occurs_at(s.as_slice(), i, pat.as_slice()) {
            proof { assert(s@.skip(i as int).take(pat@.len() as int) =~= s@.subrange(i as int, i + pat@.len())); }
            return Some(i);
        }
        proof {
            assert(s@.skip(i as int).take(pat@.len() as int) =~= s@.subrange(i as int, i + pat@.len()));
            if pat@.len() == 0 {
                assert(s@.skip(i as int).take(0) =~= pat@);
            }
        }
        i = i + 1;
    }
    None
}

/// The plugin named in a "plugin not found" diagnostic message (see `plugin_name_in`).
pub fn extract_plugin_name(message: &str) -> (r: Option<String>)
    ensures
        match r {
            Some(s) => plugin_name_in(message@) == Some(s@),
            None => plugin_name_in(message@) is None,
        },
{
    let msg = chars_of(message);
    let marker = chars_of("Plugin not found: '");
    match find_chars(&msg, &marker, 0) {
        Some(i) => {
            proof {
                reveal_strlit("Plugin not found: '");
                lemma_find_from(msg@, marker@, 0);
                assert(find_from(msg@, marker@, 0) == Some(i as int));
                assert(i + marker@.len() <= msg@.len());
            }
            let ml = msg.len();
            let kl = marker.len();
            assert(i + kl <= ml);
            let rest = crate::text::slice_from(&msg, i + kl);
            let mut quote: Vec<char> = Vec::new();
            quote.push('\'');
            proof { assert(quote@ =~= seq!['\'']); }
            match find_chars(&rest, &quote, 0) {
                Some(j) => {
                    proof { lemma_find_from(rest@, quote@, 0); }
                    let mut out: Vec<char> = Vec::new();
                    let mut k: usize = 0;
                    while k < j
                        invariant
                            k <= j,
                            j <= rest@.len(),
                            out@ == rest@.take(k as int),
                        decreases j - k,
                    {
                        out.push(rest[k]);
                        k = k + 1;
                        proof { assert(out@ =~= rest@.take(k as int)); }
                    }
                    Some(string_from_chars(out.as_slice()))
                },
                None => None,
            }
        },
        None => None,
    }
}

/// Later prefixes of a line hold strictly more bytes and more UTF-16 units.
proof fn lemma_prefix_strict(line: Seq<char>, a: int, b: int)
    requires
        0 <= a < b <= line.len(),
    ensures
        utf8_len(line.take(a)) < utf8_len(line.take(b)),
        utf16_len(line.take(a)) < utf16_len(line.take(b)),
    decreases b - a,
{
    lemma_len_step(line, b - 1);
    if a < b - 1 {
        lemma_prefix_strict(line, a, b - 1);
    }
}

/// At a character boundary, the UTF-16 units before the byte offset of the boundary are
/// the units of the characters before it.
proof fn lemma_units_at_boundary(line: Seq<char>, j: int, i: int)
    requires
        0 <= i <= j <= line.len(),
    ensures
        units_before_byte(line, utf8_len(line.take(j)), i) == utf16_len(line.take(j)),
    decreases line.len() - i,
{
    if i >= line.len() {
        assert(line.take(j) =~= line);
    } else if utf8_len(line.take(i)) >= utf8_len(line.take(j)) {
        if i < j {
            lemma_prefix_strict(line, i, j);
        }
    } else {
        lemma_units_at_boundary(line, j, i + 1);
    }
}

/// At a character boundary, the byte offset of the UTF-16 units before the boundary is
/// the bytes of the characters before it.
proof fn lemma_bytes_at_boundary(line: Seq<char>, j: int, i: int)
    requires
        0 <= i <= j <= line.len(),
    ensures
        byte_at_utf16(line, utf16_len(line.take(j)), i) == utf8_len(line.take(j)),
    decreases line.len() - i,
{
    if i >= line.len() {
        assert(line.take(j) =~= line);
    } else if utf16_len(line.take(i)) >= utf16_len(line.take(j)) {
        if i < j {
            lemma_prefix_strict(line, i, j);
        }
    } else {
        lemma_bytes_at_boundary(line, j, i + 1);
    }
}

/// The start of line `k` lies no later than that of any later line.
proof fn lemma_starts_grow(lines: Seq<Seq<char>>, m: int, k: int)
    requires
        0 <= m <= k <= lines.len(),
    ensures
        lines_bytes(lines.take(m)) <= lines_bytes(lines.take(k)),
    decreases k - m,
{
    if m < k {
        lemma_lines_bytes_step(lines, k - 1);
        lemma_starts_grow(lines, m, k - 1);
    }
}

proof fn lemma_position_at_boundary(lines: Seq<Seq<char>>, k: int, j: int, m: int)
    requires
        0 <= m <= k < lines.len(),
        0 <= j <= lines[k].len(),
    ensures
        position_of(lines, lines_bytes(lines.take(k)) + utf8_len(lines[k].take(j)), m, lines_bytes(lines.take(m)))
            == (k as nat, utf16_len(lines[k].take(j))),
    decreases k - m,
{
    let o = lines_bytes(lines.take(k)) + utf8_len(lines[k].take(j));
    lemma_len_prefix(lines[k], j);
    if m == k {
        lemma_units_at_boundary(lines[k], j, 0);
    } else {
        lemma_lines_bytes_step(lines, m);
        lemma_starts_grow(lines, m + 1, k);
        lemma_position_at_boundary(lines, k, j, m + 1);
    }
}

proof fn lemma_offset_at_boundary(lines: Seq<Seq<char>>, pos: Position, k: int, j: int, m: int)
    requires
        0 <= m <= k < lines.len(),
        0 <= j <= lines[k].len(),
        pos.line == k,
        pos.character == utf16_len(lines[k].take(j)),
    ensures
        offset_of(lines, pos, m, lines_bytes(lines.take(m))) == lines_bytes(lines.take(k)) + utf8_len(lines[k].take(j)),
    decreases k - m,
{
    if m == k {
        lemma_bytes_at_boundary(lines[k], j, 0);
    } else {
        lemma_lines_bytes_step(lines, m);
        lemma_offset_at_boundary(lines, pos, k, j, m + 1);
    }
}

/// Law: byte offsets and LSP positions convert into each other. For the boundary
/// before character `j` of line `k` of a text, the byte offset of that boundary gives
/// the position (line `k`, the UTF-16 units before the character), and that position
/// gives the byte offset back.
pub proof fn law_position_offset_round_trip(text: Seq<char>, k: int, j: int)
    requires
        0 <= k < text_lines(text).len(),
        0 <= j <= text_lines(text)[k].len(),
        k <= u32::MAX,
        utf16_len(text_lines(text)[k].take(j)) <= u32::MAX,
    ensures
        lsp_position_of(text, lines_bytes(text_lines(text).take(k)) + utf8_len(text_lines(text)[k].take(j)))
            == (Position { line: k as u32, character: utf16_len(text_lines(text)[k].take(j)) as u32 }),
        offset_of(text_lines(text), Position { line: k as u32, character: utf16_len(text_lines(text)[k].take(j)) as u32 }, 0, 0)
            == lines_bytes(text_lines(text).take(k)) + utf8_len(text_lines(text)[k].take(j)),
{
    let lines = text_lines(text);
    assert(lines.take(0) =~= Seq::<Seq<char>>::empty());
    lemma_position_at_boundary(lines, k, j, 0);
    let pos = Position { line: k as u32, character: utf16_len(lines[k].take(j)) as u32 };
    lemma_offset_at_boundary(lines, pos, k, j, 0);
}

/// Bytes add up over concatenation.
proof fn lemma_utf8_concat(a: Seq<char>, b: Seq<char>)
    ensures
        utf8_len(a + b) == utf8_len(a) + utf8_len(b),
    decreases b.len(),
{
    if b.len() == 0 {
        assert(a + b =~= a);
    } else {
        lemma_utf8_concat(a, b.drop_last());
        assert((a + b).drop_last() =~= a + b.drop_last());
        assert((a + b).last() == b.last());
    }
}

/// The bytes of a line followed by other lines.
proof fn lemma_lines_bytes_front(x: Seq<char>, m: Seq<Seq<char>>)
    ensures
        lines_bytes(seq![x] + m) == utf8_len(x) + 1 + lines_bytes(m),
    decreases m.len(),
{
    if m.len() == 0 {
        assert(seq![x] + m =~= seq![x]);
        assert(seq![x].drop_last() =~= Seq::<Seq<char>>::empty());
        assert(seq![x].last() == x);
        assert(lines_bytes(Seq::<Seq<char>>::empty()) == 0);
    } else {
        lemma_lines_bytes_front(x, m.drop_last());
        assert((seq![x] + m).drop_last() =~= seq![x] + m.drop_last());
        assert((seq![x] + m).last() == m.last());
    }
}

/// Whether byte offset `o` is the boundary before character `j` of line `k` of the lines,
/// or the end of all the lines.
pub open spec fn is_line_boundary(lines: Seq<Seq<char>>, o: nat) -> bool {
    ||| o == lines_bytes(lines)
    ||| exists|k: int, j: int| 0 <= k < lines.len() && 0 <= j <= lines[k].len()
            && o == lines_bytes(lines.take(k)) + utf8_len(#[trigger] lines[k].take(j))
}

/// Each character boundary of a text without `\r` is a boundary of its lines: the
/// bytes before character `p` of `cur + rest` lie at a line boundary of the lines that
/// reading `rest` after `cur` gives.
proof fn lemma_boundary_in_lines(cur: Seq<char>, rest: Seq<char>, p: int)
    requires
        0 <= p <= cur.len() + rest.len(),
        forall|i: int| 0 <= i < cur.len() ==> cur[i] != '\r' && cur[i] != '\n',
        forall|i: int| 0 <= i < rest.len() ==> rest[i] != '\r',
    ensures
        is_line_boundary(lines_acc(cur, rest), utf8_len((cur + rest).take(p))),
    decreases rest.len(),
{
    let lines = lines_acc(cur, rest);
    let o = utf8_len((cur + rest).take(p));
    if rest.len() == 0 {
        assert(cur + rest =~= cur);
        if cur.len() == 0 {
            assert(lines =~= Seq::<Seq<char>>::empty());
            assert((cur + rest).take(p) =~= Seq::<char>::empty());
        } else {
            assert(lines == seq![cur]);
            assert(lines.take(0) =~= Seq::<Seq<char>>::empty());
            assert(lines[0].take(p) == (cur + rest).take(p));
        }
    } else if rest[0] == '\n' {
        let rest1 = rest.skip(1);
        let tail = lines_acc(Seq::empty(), rest1);
        assert(lines == seq![cur] + tail);
        assert(lines[0] == cur);
        if p <= cur.len() {
            assert((cur + rest).take(p) =~= cur.take(p));
            assert(lines.take(0) =~= Seq::<Seq<char>>::empty());
            assert(o == lines_bytes(lines.take(0)) + utf8_len(lines[0].take(p)));
        } else {
            let q = p - cur.len() - 1;
            assert((cur + rest).take(p) =~= (cur + seq!['\n']) + rest1.take(q));
            lemma_utf8_concat(cur + seq!['\n'], rest1.take(q));
            lemma_utf8_concat(cur, seq!['\n']);
            assert(seq!['\n'].drop_last() =~= Seq::<char>::empty());
            assert(seq!['\n'].last() == '\n');
            assert(('\n' as u32) == 10u32);
            assert(utf8_width('\n') == 1);
            assert(utf8_len(Seq::<char>::empty()) == 0);
            assert(utf8_len(seq!['\n']) == utf8_len(seq!['\n'].drop_last()) + utf8_width(seq!['\n'].last()));
            assert(utf8_len(seq!['\n']) == 1);
            assert(Seq::<char>::empty() + rest1 =~= rest1);
            lemma_boundary_in_lines(Seq::empty(), rest1, q);
            assert(o == utf8_len(cur) + 1 + utf8_len((Seq::<char>::empty() + rest1).take(q)));
            let o1 = utf8_len((Seq::<char>::empty() + rest1).take(q));
            if o1 == lines_bytes(tail) {
                lemma_lines_bytes_front(cur, tail);
            } else {
                let (k, j) = choose|k: int, j: int| 0 <= k < tail.len() && 0 <= j <= tail[k].len()
                    && o1 == lines_bytes(tail.take(k)) + utf8_len(#[trigger] tail[k].take(j));
                assert(lines.take(k + 1) =~= seq![cur] + tail.take(k));
                lemma_lines_bytes_front(cur, tail.take(k));
                assert(lines[k + 1] == tail[k]);
                assert(o == lines_bytes(lines.take(k + 1)) + utf8_len(lines[k + 1].take(j)));
            }
        }
    } else {
        let cur1 = cur.push(rest[0]);
        let rest1 = rest.skip(1);
        assert(cur1 + rest1 =~= cur + rest);
        lemma_boundary_in_lines(cur1, rest1, p);
    }
}

/// The end of all lines lies past every line: looking from line `m`, the position is
/// the line after the last one.
proof fn lemma_position_at_end(lines: Seq<Seq<char>>, m: int)
    requires
        0 <= m <= lines.len(),
    ensures
        position_of(lines, lines_bytes(lines), m, lines_bytes(lines.take(m))) == (lines.len(), 0nat),
    decreases lines.len() - m,
{
    if m < lines.len() {
        lemma_lines_bytes_step(lines, m);
        lemma_starts_grow(lines, m + 1, lines.len() as int);
        assert(lines.take(lines.len() as int) =~= lines);
        lemma_position_at_end(lines, m + 1);
    }
}

proof fn lemma_offset_at_end(lines: Seq<Seq<char>>, pos: Position, m: int)
    requires
        0 <= m <= lines.len(),
        pos.line == lines.len(),
    ensures
        offset_of(lines, pos, m, lines_bytes(lines.take(m))) == lines_bytes(lines),
    decreases lines.len() - m,
{
    if m < lines.len() {
        lemma_lines_bytes_step(lines, m);
        lemma_offset_at_end(lines, pos, m + 1);
    } else {
        assert(lines.take(m) =~= lines);
    }
}

/// Law: in a text without `\r`, converting the byte offset of any character boundary
/// to an LSP position and that position back to a byte offset gives the offset again
/// (lines and UTF-16 columns fitting in 32 bits).
pub proof fn law_offset_round_trip(text: Seq<char>, p: int)
    requires
        0 <= p <= text.len(),
        forall|i: int| 0 <= i < text.len() ==> text[i] != '\r',
        text_lines(text).len() < u32::MAX,
        forall|k: int| 0 <= k < text_lines(text).len() ==> utf16_len(#[trigger] text_lines(text)[k]) <= u32::MAX,
    ensures
        offset_of(text_lines(text), lsp_position_of(text, utf8_len(text.take(p))), 0, 0) == utf8_len(text.take(p)),
{
    let lines = text_lines(text);
    let o = utf8_len(text.take(p));
    assert(Seq::<char>::empty() + text =~= text);
    lemma_boundary_in_lines(Seq::empty(), text, p);
    assert(lines.take(0) =~= Seq::<Seq<char>>::empty());
    if o == lines_bytes(lines) {
        lemma_position_at_end(lines, 0);
        let pos = lsp_position_of(text, o);
        assert(pos.line == lines.len());
        lemma_offset_at_end(lines, pos, 0);
    } else {
        let (k, j) = choose|k: int, j: int| 0 <= k < lines.len() && 0 <= j <= lines[k].len()
            && o == lines_bytes(lines.take(k)) + utf8_len(#[trigger] lines[k].take(j));
        lemma_len_prefix(lines[k], j);
        assert(utf16_len(lines[k]) <= u32::MAX);
        law_position_offset_round_trip(text, k, j);
    }
}

} // verus!
