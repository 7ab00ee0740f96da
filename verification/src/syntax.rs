use vstd::prelude::*;

use crate::paths::str_eq;
use crate::span::{Position, Span};
use crate::text::chars_of;

verus! {

/// A node of a parsed CDM document, holding what the library reads of it: its kind,
/// the field it fills in its parent, the source text it spans, where it spans, whether
/// the parser inserted it as missing, whether it is a named node of the grammar, and
/// its children in order.
#[derive(Debug)]
pub struct SyntaxNode {
    pub kind: String,
    pub field_name: Option<String>,
    pub text: String,
    pub start_byte: usize,
    pub end_byte: usize,
    pub start_row: usize,
    pub start_column: usize,
    pub end_row: usize,
    pub end_column: usize,
    pub is_missing: bool,
    pub is_named: bool,
    pub children: Vec<SyntaxNode>,
}

/// Whether a child fills the named field of its parent.
pub open spec fn fills_field(child: SyntaxNode, name: Seq<char>) -> bool {
    match child.field_name {
        Some(f) => f@ == name,
        None => false,
    }
}

/// The first node of a list that fills the named field.
pub open spec fn first_filling(s: Seq<SyntaxNode>, name: Seq<char>) -> Option<SyntaxNode>
    decreases s.len(),
{
    if s.len() == 0 {
        None
    } else if fills_field(s[0], name) {
        Some(s[0])
    } else {
        first_filling(s.skip(1), name)
    }
}

/// The first child that fills the named field.
pub open spec fn field_child(n: SyntaxNode, name: Seq<char>) -> Option<SyntaxNode> {
    first_filling(n.children@, name)
}

/// The text of the first child that fills the named field.
pub open spec fn field_text(n: SyntaxNode, name: Seq<char>) -> Option<Seq<char>> {
    match field_child(n, name) {
        Some(c) => Some(c.text@),
        None => None,
    }
}

/// The text of the named field, or the empty text when there is no such child.
pub open spec fn field_text_or_empty(n: SyntaxNode, name: Seq<char>) -> Seq<char> {
    match field_text(n, name) {
        Some(t) => t,
        None => Seq::empty(),
    }
}

impl SyntaxNode {
    /// The index of the first child that fills the named field.
    pub fn child_index_by_field_name(&self, name: &str) -> (r: Option<usize>)
        ensures
            match r {
                Some(i) => i < self.children@.len() && field_child(*self, name@) == Some(self.children@[i as int]),
                None => field_child(*self, name@) is None,
            },
    {
        let mut i: usize = 0;
        proof { assert(self.children@.skip(0) =~= self.children@); }
        while i < self.children.len()
            invariant
                i <= self.children@.len(),
                first_filling(self.children@, name@) == first_filling(self.children@.skip(i as int), name@),
            decreases self.children@.len() - i,
        {
            let hit = match &self.children[i].field_name {
                Some(f) => str_eq(f.as_str(), name),
                None => false,
            };
            proof {
                let rest = self.children@.skip(i as int);
                assert(rest[0] == self.children@[i as int]);
                assert(rest.skip(1) =~= self.children@.skip(i + 1));
            }
            if hit {
                return Some(i);
            }
            i = i + 1;
        }
        None
    }

    /// The first child that fills the named field (tree-sitter's `child_by_field_name`).
    pub fn child_by_field_name(&self, name: &str) -> (r: Option<&SyntaxNode>)
        ensures
            match r {
                Some(c) => field_child(*self, name@) == Some(*c),
                None => field_child(*self, name@) is None,
            },
    {
        match self.child_index_by_field_name(name) {
            Some(i) => Some(&self.children[i]),
            None => None,
        }
    }

    /// The text of the named field, or the empty text when there is none.
    pub fn field_text_or_empty(&self, name: &str) -> (r: String)
        ensures
            r@ == field_text_or_empty(*self, name@),
    {
        match self.child_by_field_name(name) {
            Some(c) => c.text.clone(),
            None => String::new(),
        }
    }

    /// Whether the node's kind is `kind`.
    pub fn is_kind(&self, kind: &str) -> (r: bool)
        ensures
            r == (self.kind@ == kind@),
    {
        str_eq(self.kind.as_str(), kind)
    }
}

/// The span a node covers, for diagnostics.
pub fn node_span(node: &SyntaxNode) -> (s: Span)
    ensures
        s == (Span {
            start: Position { line: node.start_row, column: node.start_column },
            end: Position { line: node.end_row, column: node.end_column },
        }),
{
    Span {
        start: Position { line: node.start_row, column: node.start_column },
        end: Position { line: node.end_row, column: node.end_column },
    }
}

/// Whether a character is an ASCII decimal digit.
pub open spec fn is_digit(c: char) -> bool {
    '0' <= c && c <= '9'
}

/// The number that a list of decimal digits denotes.
pub open spec fn digits_value(d: Seq<char>) -> nat
    decreases d.len(),
{
    if d.len() == 0 {
        0
    } else {
        digits_value(d.drop_last()) * 10 + ((d.last() as u32) - ('0' as u32)) as nat
    }
}

/// One or more decimal digits whose value fits in a `u64`.
pub open spec fn parsed_digits(d: Seq<char>) -> Option<u64> {
    if d.len() > 0 && (forall|i: int| 0 <= i < d.len() ==> is_digit(#[trigger] d[i])) && digits_value(d) <= u64::MAX {
        Some(digits_value(d) as u64)
    } else {
        None
    }
}

/// What `str::parse::<u64>` gives: an optional `+`, then one or more decimal digits whose
/// value fits in a `u64`.
pub open spec fn parsed_u64(s: Seq<char>) -> Option<u64> {
    if s.len() > 0 && s[0] == '+' { parsed_digits(s.skip(1)) } else { parsed_digits(s) }
}

proof fn lemma_digits_value_monotone(d: Seq<char>, n: int)
    requires
        0 <= n <= d.len(),
        forall|i: int| 0 <= i < d.len() ==> is_digit(#[trigger] d[i]),
    ensures
        digits_value(d.take(n)) <= digits_value(d),
    decreases d.len() - n,
{
    if n < d.len() {
        lemma_digits_value_monotone(d, n + 1);
        assert(d.take(n + 1).drop_last() =~= d.take(n));
        assert(is_digit(d[n]));
    } else {
        assert(d.take(n) =~= d);
    }
}

/// Parses one or more decimal digits into a `u64` (see `parsed_digits`).
pub fn parse_digits(d: &[char]) -> (r: Option<u64>)
    ensures
        r == parsed_digits(d@),
{
    if d.len() == 0 {
        return None;
    }
    let mut value: u64 = 0;
    let mut i: usize = 0;
    while i < d.len()
        invariant
            i <= d@.len(),
            forall|k: int| 0 <= k < i ==> is_digit(#[trigger] d@[k]),
            value == digits_value(d@.take(i as int)),
        decreases d@.len() - i,
    {
        let c = d[i];
        if !('0' <= c && c <= '9') {
            proof { assert(!is_digit(d@[i as int])); }
            return None;
        }
        let digit = (c as u32 - '0' as u32) as u64;
        let ghost next = digits_value(d@.take(i + 1));
        proof {
            assert(d@.take(i + 1).drop_last() =~= d@.take(i as int));
            assert(d@.take(i + 1).last() == c);
            assert(next == value * 10 + digit);
        }
        let m = value.checked_mul(10);
        if m.is_none() {
            proof {
                assert(value * 10 > u64::MAX);
                assert(next > u64::MAX);
                if forall|k: int| 0 <= k < d@.len() ==> is_digit(#[trigger] d@[k]) {
                    lemma_digits_value_monotone(d@, i + 1);
                }
            }
            return None;
        }
        let a = m.unwrap().checked_add(digit);
        if a.is_none() {
            proof {
                assert(next > u64::MAX);
                if forall|k: int| 0 <= k < d@.len() ==> is_digit(#[trigger] d@[k]) {
                    lemma_digits_value_monotone(d@, i + 1);
                }
            }
            return None;
        }
        value = a.unwrap();
        i = i + 1;
    }
    proof { assert(d@.take(i as int) =~= d@); }
    Some(value)
}

/// Parses decimal text as `str::parse::<u64>` does (see `parsed_u64`).
pub fn parse_u64(s: &[char]) -> (r: Option<u64>)
    ensures
        r == parsed_u64(s@),
{
    if s.len() > 0 && s[0] == '+' {
        let mut rest: Vec<char> = Vec::new();
        let mut i: usize = 1;
        while i < s.len()
            invariant
                1 <= i <= s@.len(),
                rest@ == s@.subrange(1, i as int),
            decreases s@.len() - i,
        {
            rest.push(s[i]);
            i = i + 1;
            proof { assert(rest@ =~= s@.subrange(1, i as int)); }
        }
        assert(rest@ =~= s@.skip(1));
        parse_digits(rest.as_slice())
    } else {
        parse_digits(s)
    }
}

/// The entity ID written on a node (`#<number>` in its `id` field), if it parses.
pub open spec fn entity_id_of(n: SyntaxNode) -> Option<u64> {
    match field_text(n, seq!['i', 'd']) {
        Some(t) => if t.len() > 0 && t[0] == '#' { parsed_u64(t.skip(1)) } else { None },
        None => None,
    }
}

/// The entity ID written on a node, if its `id` field holds `#` and a number.
pub fn extract_entity_id(node: &SyntaxNode) -> (r: Option<u64>)
    ensures
        r == entity_id_of(*node),
{
    proof { reveal_strlit("id"); assert("id"@ =~= seq!['i', 'd']); }
    match node.child_by_field_name("id") {
        Some(id_node) => {
            let t = chars_of(id_node.text.as_str());
            if t.len() > 0 && t[0] == '#' {
                let rest = crate::text::slice_from(&t, 1);
                parse_u64(rest.as_slice())
            } else {
                None
            }
        },
        None => None,
    }
}

} // verus!
