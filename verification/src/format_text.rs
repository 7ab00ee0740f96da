use vstd::prelude::*;

use crate::format::{EntityType, IdAssignment};
use crate::syntax::{field_child, field_text_or_empty, fills_field, SyntaxNode};
use crate::text::{decimal, decimal_chars, push_all, push_str, string_from_chars};

verus! {

/// `n` spaces.
pub open spec fn spaces(n: nat) -> Seq<char> {
    Seq::new(n, |i: int| ' ')
}

/// The parts joined with `sep` between each two.
pub open spec fn joined(parts: Seq<Seq<char>>, sep: Seq<char>) -> Seq<char>
    decreases parts.len(),
{
    if parts.len() == 0 {
        Seq::empty()
    } else if parts.len() == 1 {
        parts[0]
    } else {
        joined(parts.drop_last(), sep) + sep + parts.last()
    }
}

/// The text of a type expression as formatting writes it: union members joined by
/// ` | `, an array as its element type and `[]`, an optional type as its base type and
/// `?`, anything else as written.
pub open spec fn type_text(n: SyntaxNode) -> Seq<char>
    decreases n,
{
    if n.kind@ == "union_type"@ {
        joined(union_parts(n.children@), seq![' ', '|', ' '])
    } else if n.kind@ == "array_type"@ {
        first_kind_text(n.children@, "type_identifier"@) + seq!['[', ']']
    } else if n.kind@ == "optional_type"@ {
        optional_base(n.children@) + seq!['?']
    } else {
        n.text@
    }
}

/// The formatted members of a union, leaving out the `|` tokens.
pub open spec fn union_parts(s: Seq<SyntaxNode>) -> Seq<Seq<char>>
    decreases s,
{
    if s.len() == 0 {
        Seq::empty()
    } else if s.last().kind@ == "|"@ {
        union_parts(s.drop_last())
    } else {
        union_parts(s.drop_last()).push(type_text(s.last()))
    }
}

/// The formatted base type of an optional type: its first child filling the `type`
/// field, or nothing.
pub open spec fn optional_base(s: Seq<SyntaxNode>) -> Seq<char>
    decreases s,
{
    if s.len() == 0 {
        Seq::empty()
    } else if fills_field(s[0], "type"@) {
        type_text(s[0])
    } else {
        optional_base(s.subrange(1, s.len() as int))
    }
}

/// The text of the first node of the given kind, or nothing.
pub open spec fn first_kind_text(s: Seq<SyntaxNode>, kind: Seq<char>) -> Seq<char>
    decreases s.len(),
{
    if s.len() == 0 {
        Seq::empty()
    } else if s[0].kind@ == kind {
        s[0].text@
    } else {
        first_kind_text(s.skip(1), kind)
    }
}

/// Joining one more part adds the separator and the part, unless it is the first.
pub proof fn lemma_joined_push(parts: Seq<Seq<char>>, sep: Seq<char>, x: Seq<char>)
    ensures
        joined(parts.push(x), sep) == if parts.len() == 0 { x } else { joined(parts, sep) + sep + x },
{
    assert(parts.push(x).drop_last() =~= parts);
    if parts.len() == 0 {
        assert(parts.push(x)[0] == x);
    }
}

/// The base of an optional type is its first child filling the `type` field.
proof fn lemma_optional_base(s: Seq<SyntaxNode>)
    ensures
        optional_base(s) == match crate::syntax::first_filling(s, "type"@) {
            Some(c) => type_text(c),
            None => Seq::empty(),
        },
    decreases s.len(),
{
    if s.len() > 0 && !fills_field(s[0], "type"@) {
        assert(s.subrange(1, s.len() as int) =~= s.skip(1));
        lemma_optional_base(s.skip(1));
    }
}

/// The index of the first node of the given kind.
fn first_kind_index(s: &Vec<SyntaxNode>, kind: &str) -> (r: Option<usize>)
    ensures
        match r {
            Some(i) => i < s@.len() && first_kind_text(s@, kind@) == s@[i as int].text@,
            None => first_kind_text(s@, kind@) == Seq::<char>::empty(),
        },
{
    let mut i: usize = 0;
    proof { assert(s@.skip(0) =~= s@); }
    while i < s.len()
        invariant
            i <= s@.len(),
            first_kind_text(s@, kind@) == first_kind_text(s@.skip(i as int), kind@),
        decreases s@.len() - i,
    {
        proof {
            let rest = s@.skip(i as int);
            assert(rest[0] == s@[i as int]);
            assert(rest.skip(1) =~= s@.skip(i + 1));
        }
        if s[i].is_kind(kind) {
            return Some(i);
        }
        i = i + 1;
    }
    None
}

/// Formats a type expression (see `type_text`).
pub fn format_type(n: &SyntaxNode) -> (r: Vec<char>)
    ensures
        r@ == type_text(*n),
    decreases n,
{
    if n.is_kind("union_type") {
        let mut out: Vec<char> = Vec::new();
        let mut count: usize = 0;
        let mut i: usize = 0;
        proof { assert(n.children@.take(0) =~= Seq::<SyntaxNode>::empty()); }
        while i < n.children.len()
            invariant
                n.kind@ == "union_type"@,
                i <= n.children@.len(),
                count == union_parts(n.children@.take(i as int)).len(),
                out@ == joined(union_parts(n.children@.take(i as int)), seq![' ', '|', ' ']),
                count <= i,
            decreases n.children@.len() - i,
        {
            let child = &n.children[i];
            let ghost before = n.children@.take(i as int);
            proof {
                assert(n.children@.take(i + 1).drop_last() =~= before);
                assert(n.children@.take(i + 1).last() == n.children@[i as int]);
                let x = *n;
                assert(decreases_to!(x => x.children@[i as int]));
            }
            if !child.is_kind("|") {
                let part = format_type(child);
                proof { lemma_joined_push(union_parts(before), seq![' ', '|', ' '], part@); }
                if count > 0 {
                    out.push(' ');
                    out.push('|');
                    out.push(' ');
                }
                push_all(&mut out, part.as_slice());
                count = count + 1;
                proof {
                    assert(out@ =~= joined(union_parts(n.children@.take(i + 1)), seq![' ', '|', ' ']));
                }
            }
            i = i + 1;
        }
        proof { assert(n.children@.take(i as int) =~= n.children@); }
        out
    } else if n.is_kind("array_type") {
        let mut out: Vec<char> = Vec::new();
        match first_kind_index(&n.children, "type_identifier") {
            Some(i) => push_str(&mut out, n.children[i].text.as_str()),
            None => {},
        }
        out.push('[');
        out.push(']');
        proof { assert(out@ =~= type_text(*n)); }
        out
    } else if n.is_kind("optional_type") {
        proof { lemma_optional_base(n.children@); }
        let mut out: Vec<char> = match n.child_index_by_field_name("type") {
            Some(i) => {
                proof {
                    let x = *n;
                    assert(decreases_to!(x => x.children@[i as int]));
                }
                format_type(&n.children[i])
            },
            None => Vec::new(),
        };
        out.push('?');
        proof { assert(out@ =~= type_text(*n)); }
        out
    } else {
        let mut out: Vec<char> = Vec::new();
        push_str(&mut out, n.text.as_str());
        proof { assert(out@ =~= type_text(*n)); }
        out
    }
}

/// A string option by its view.
pub open spec fn opt_str(o: Option<String>) -> Option<Seq<char>> {
    match o {
        Some(s) => Some(s@),
        None => None,
    }
}

/// The ID assigned to an entity: that of the last assignment for it.
pub open spec fn assigned_for(assignments: Seq<IdAssignment>, ty: EntityType, name: Seq<char>, model: Option<Seq<char>>) -> Option<u64>
    decreases assignments.len(),
{
    if assignments.len() == 0 {
        None
    } else if assignments.last().entity_type == ty && assignments.last().entity_name@ == name
        && opt_str(assignments.last().model_name) == model {
        Some(assignments.last().assigned_id)
    } else {
        assigned_for(assignments.drop_last(), ty, name, model)
    }
}

/// Looks up the ID assigned to an entity (see `assigned_for`).
pub fn lookup_assignment(assignments: &Vec<IdAssignment>, ty: EntityType, name: &str, model: Option<&str>) -> (r: Option<u64>)
    ensures
        r == assigned_for(assignments@, ty, name@, match model { Some(m) => Some(m@), None => None }),
{
    let ghost mv: Option<Seq<char>> = match model { Some(m) => Some(m@), None => None };
    let mut i: usize = assignments.len();
    proof { assert(assignments@.take(i as int) =~= assignments@); }
    while i > 0
        invariant
            mv == match model { Some(m) => Some(m@), None => None::<Seq<char>> },
            i <= assignments@.len(),
            assigned_for(assignments@, ty, name@, mv) == assigned_for(assignments@.take(i as int), ty, name@, mv),
        decreases i,
    {
        let a = &assignments[i - 1];
        let ghost pre = assignments@.take(i as int);
        proof {
            assert(pre.last() == assignments@[i - 1]);
            assert(pre.drop_last() =~= assignments@.take(i - 1));
        }
        let model_matches = match &a.model_name {
            Some(x) => match model {
                Some(y) => {
                    crate::paths::str_eq(x.as_str(), y)
                },
                None => false,
            },
            None => model.is_none(),
        };
        proof {
            assert(model_matches == (opt_str(a.model_name) == mv));
        }
        let same_type = a.entity_type == ty;
        proof { assert(same_type == (a.entity_type == ty)); }
        if same_type && crate::paths::str_eq(a.entity_name.as_str(), name) && model_matches {
            return Some(a.assigned_id);
        }
        i = i - 1;
    }
    None
}

/// The ID part of a formatted entity: the ID as written, else the assigned one, else
/// nothing.
pub open spec fn id_text(node: SyntaxNode, assigned: Option<u64>) -> Seq<char> {
    match field_child(node, "id"@) {
        Some(c) => seq![' '] + c.text@,
        None => match assigned {
            Some(id) => seq![' ', '#'] + decimal(id as nat),
            None => Seq::empty(),
        },
    }
}

fn push_id(out: &mut Vec<char>, node: &SyntaxNode, assigned: Option<u64>)
    ensures
        final(out)@ == old(out)@ + id_text(*node, assigned),
{
    proof { reveal_strlit("id"); }
    match node.child_by_field_name("id") {
        Some(c) => {
            out.push(' ');
            push_str(out, c.text.as_str());
        },
        None => match assigned {
            Some(id) => {
                out.push(' ');
                out.push('#');
                let d = decimal_chars(id);
                push_all(out, d.as_slice());
            },
            None => {},
        },
    }
    proof { assert(final(out)@ =~= old(out)@ + id_text(*node, assigned)); }
}

/// The formatted text of a type in a field of `node`, or nothing.
pub open spec fn type_field_text(node: SyntaxNode) -> Seq<char> {
    match field_child(node, "type"@) {
        Some(t) => type_text(t),
        None => Seq::empty(),
    }
}

/// A formatted type alias: `name: type` and its ID.
pub open spec fn type_alias_text(node: SyntaxNode, assignments: Seq<IdAssignment>) -> Seq<char> {
    let name = field_text_or_empty(node, "name"@);
    name + seq![':', ' '] + type_field_text(node) + id_text(node, assigned_for(assignments, EntityType::TypeAlias, name, None))
}

/// A formatted type alias starts with its name, `: ` and its formatted type, and ends
/// with its ID as written, when it has one.
proof fn lemma_type_alias_text_keeps_text(node: SyntaxNode, assignments: Seq<IdAssignment>)
    ensures
        type_alias_keeps_text(node, type_alias_text(node, assignments)),
{
    let line = type_alias_text(node, assignments);
    let name = field_text_or_empty(node, "name"@);
    let n = name.len() as int;
    let idt = id_text(node, assigned_for(assignments, EntityType::TypeAlias, name, None));
    let sep = seq![':', ' '];
    assert(line =~= name + sep + type_field_text(node) + idt);
    assert(line.subrange(0, n) =~= name);
    assert(line.subrange(n, n + 2) =~= sep);
    match field_child(node, "type"@) {
        Some(t) => {
            assert(line.subrange(n + 2, n + 2 + type_text(t).len()) =~= type_text(t));
        },
        None => {},
    }
    match field_child(node, "id"@) {
        Some(c) => {
            assert(line.subrange(line.len() - c.text@.len() - 1, line.len() as int) =~= idt);
        },
        None => {},
    }
}

/// The text of a type alias declaration is kept in its formatted form `line`: the name,
/// `: ` and the formatted type come first, and an ID written in the source comes last.
pub open spec fn type_alias_keeps_text(node: SyntaxNode, line: Seq<char>) -> bool {
    let name = field_text_or_empty(node, "name"@);
    let n = name.len() as int;
    let len = line.len() as int;
    &&& len >= n + 2
    &&& line.subrange(0, n) == name
    &&& line.subrange(n, n + 2) == seq![':', ' ']
    &&& match field_child(node, "type"@) {
        Some(t) => n + 2 + type_text(t).len() <= len
            && line.subrange(n + 2, n + 2 + type_text(t).len()) == type_text(t),
        None => true,
    }
    &&& match field_child(node, "id"@) {
        Some(c) => len >= c.text@.len() + 1
            && line.subrange(len - c.text@.len() - 1, len) == seq![' '] + c.text@,
        None => true,
    }
}

/// Formats a type alias (see `type_alias_text`): its name, `: ` and its formatted type
/// come first, and an ID written in the source comes last, as written.
pub fn format_type_alias(node: &SyntaxNode, assignments: &Vec<IdAssignment>) -> (r: Vec<char>)
    ensures
        r@ == type_alias_text(*node, assignments@),
        type_alias_keeps_text(*node, r@),
{
    proof { reveal_strlit("name"); reveal_strlit("type"); }
    let name = node.field_text_or_empty("name");
    let mut out: Vec<char> = Vec::new();
    push_str(&mut out, name.as_str());
    out.push(':');
    out.push(' ');
    match node.child_by_field_name("type") {
        Some(t) => {
            let ts = format_type(t);
            push_all(&mut out, ts.as_slice());
        },
        None => {},
    }
    let assigned = lookup_assignment(assignments, EntityType::TypeAlias, name.as_str(), None);
    push_id(&mut out, node, assigned);
    proof {
        assert(out@ =~= type_alias_text(*node, assignments@));
        lemma_type_alias_text_keeps_text(*node, assignments@);
    }
    out
}

/// The type part of a formatted field: `: type`, then ` = default` and the inline
/// plugin block when written, or nothing when the field has no type.
pub open spec fn field_type_part(node: SyntaxNode) -> Seq<char> {
    match field_child(node, "type"@) {
        Some(t) => seq![':', ' '] + type_text(t)
            + match field_child(node, "default"@) {
                Some(d) => seq![' ', '=', ' '] + d.text@,
                None => Seq::empty(),
            }
            + match field_child(node, "plugins"@) {
                Some(p) => seq![' '] + p.text@,
                None => Seq::empty(),
            },
        None => Seq::empty(),
    }
}

/// A formatted field line: indentation, name, `?` when optional, the type part and the ID.
pub open spec fn field_line(node: SyntaxNode, model: Seq<char>, assignments: Seq<IdAssignment>, indent: Seq<char>) -> Seq<char> {
    let name = field_text_or_empty(node, "name"@);
    indent + name
        + (if field_child(node, "optional"@) is Some { seq!['?'] } else { Seq::empty() })
        + field_type_part(node)
        + id_text(node, assigned_for(assignments, EntityType::Field, name, Some(model)))
}

/// A formatted field line starts with the indentation and the name, holds a typed field's
/// default value right after its type, and ends with an ID written in the source.
proof fn lemma_field_line_keeps_text(node: SyntaxNode, model: Seq<char>, assignments: Seq<IdAssignment>, indent: Seq<char>)
    ensures
        ({
            let line = field_line(node, model, assignments, indent);
            let name = field_text_or_empty(node, "name"@);
            &&& line.len() >= indent.len() + name.len()
            &&& line.subrange(0, indent.len() as int) == indent
            &&& line.subrange(indent.len() as int, (indent.len() + name.len()) as int) == name
            &&& match (field_child(node, "type"@), field_child(node, "default"@)) {
                (Some(t), Some(d)) => {
                    let k = indent.len() + name.len()
                        + (if field_child(node, "optional"@) is Some { 1int } else { 0int }) + 2 + type_text(t).len();
                    &&& k + 3 + d.text@.len() <= line.len()
                    &&& line.subrange(k, k + 3 + d.text@.len()) == seq![' ', '=', ' '] + d.text@
                },
                _ => true,
            }
            &&& match field_child(node, "id"@) {
                Some(c) => line.len() >= c.text@.len() + 1
                    && line.subrange(line.len() - c.text@.len() - 1, line.len() as int) == seq![' '] + c.text@,
                None => true,
            }
        }),
{
    let line = field_line(node, model, assignments, indent);
    let name = field_text_or_empty(node, "name"@);
    let head = indent + name;
    let mark: Seq<char> = if field_child(node, "optional"@) is Some { seq!['?'] } else { Seq::empty() };
    let idt = id_text(node, assigned_for(assignments, EntityType::Field, name, Some(model)));
    let tail = field_type_part(node) + idt;
    assert(line =~= head + (mark + tail));
    assert(line.subrange(0, indent.len() as int) =~= indent);
    assert(line.subrange(indent.len() as int, (indent.len() + name.len()) as int) =~= name);
    match (field_child(node, "type"@), field_child(node, "default"@)) {
        (Some(t), Some(d)) => {
            let eq = seq![' ', '=', ' '] + d.text@;
            let plug: Seq<char> = match field_child(node, "plugins"@) {
                Some(p) => seq![' '] + p.text@,
                None => Seq::empty(),
            };
            let front = head + mark + seq![':', ' '] + type_text(t);
            assert(line =~= front + eq + (plug + idt));
            let k = front.len() as int;
            assert(line.subrange(k, k + eq.len()) =~= eq);
        },
        _ => {},
    }
    match field_child(node, "id"@) {
        Some(c) => {
            assert(line =~= (head + (mark + field_type_part(node))) + idt);
            assert(line.subrange(line.len() - c.text@.len() - 1, line.len() as int) =~= idt);
        },
        None => {},
    }
}

/// Formats a field definition (see `field_line`). Nothing written is lost: the line starts
/// with the indentation and the field's name, a typed field's default value stands right
/// after its type, as ` = ` and the value's text, and an ID written in the source ends the
/// line as written.
pub fn format_field(node: &SyntaxNode, model_name: &str, assignments: &Vec<IdAssignment>, indent: &[char]) -> (r: Vec<char>)
    ensures
        r@ == field_line(*node, model_name@, assignments@, indent@),
        r@.len() >= indent@.len() + field_text_or_empty(*node, "name"@).len(),
        r@.subrange(0, indent@.len() as int) == indent@,
        r@.subrange(indent@.len() as int, (indent@.len() + field_text_or_empty(*node, "name"@).len()) as int)
            == field_text_or_empty(*node, "name"@),
        match (field_child(*node, "type"@), field_child(*node, "default"@)) {
            (Some(t), Some(d)) => {
                let k = indent@.len() + field_text_or_empty(*node, "name"@).len()
                    + (if field_child(*node, "optional"@) is Some { 1int } else { 0int }) + 2 + type_text(t).len();
                &&& k + 3 + d.text@.len() <= r@.len()
                &&& r@.subrange(k, k + 3 + d.text@.len()) == seq![' ', '=', ' '] + d.text@
            },
            _ => true,
        },
        match field_child(*node, "id"@) {
            Some(c) => r@.len() >= c.text@.len() + 1
                && r@.subrange(r@.len() - c.text@.len() - 1, r@.len() as int) == seq![' '] + c.text@,
            None => true,
        },
{
    proof {
        reveal_strlit("name");
        reveal_strlit("type");
        reveal_strlit("optional");
        reveal_strlit("default");
        reveal_strlit("plugins");
    }
    let name = node.field_text_or_empty("name");
    let mut out: Vec<char> = Vec::new();
    push_all(&mut out, indent);
    push_str(&mut out, name.as_str());
    if node.child_by_field_name("optional").is_some() {
        out.push('?');
    }
    let ghost before_type = out@;
    match node.child_by_field_name("type") {
        Some(t) => {
            out.push(':');
            out.push(' ');
            let ts = format_type(t);
            push_all(&mut out, ts.as_slice());
            match node.child_by_field_name("default") {
                Some(d) => {
                    out.push(' ');
                    out.push('=');
                    out.push(' ');
                    push_str(&mut out, d.text.as_str());
                },
                None => {},
            }
            match node.child_by_field_name("plugins") {
                Some(p) => {
                    out.push(' ');
                    push_str(&mut out, p.text.as_str());
                },
                None => {},
            }
        },
        None => {},
    }
    proof { assert(out@ =~= before_type + field_type_part(*node)); }
    let assigned = lookup_assignment(assignments, EntityType::Field, name.as_str(), Some(model_name));
    push_id(&mut out, node, assigned);
    proof {
        assert(out@ =~= field_line(*node, model_name@, assignments@, indent@));
        lemma_field_line_keeps_text(*node, model_name@, assignments@, indent@);
    }
    out
}

/// Whether a node kind is a line break token (its kind begins with a newline or a
/// carriage return).
pub open spec fn is_break_kind(kind: Seq<char>) -> bool {
    kind.len() > 0 && (kind[0] == '\n' || kind[0] == '\r')
}

fn break_kind(node: &SyntaxNode) -> (r: bool)
    ensures
        r == is_break_kind(node.kind@),
{
    let k = crate::text::chars_of(node.kind.as_str());
    k.len() > 0 && (k[0] == '\n' || k[0] == '\r')
}

/// The texts of the `identifier` nodes of a list, in order.
pub open spec fn identifiers(s: Seq<SyntaxNode>) -> Seq<Seq<char>>
    decreases s.len(),
{
    if s.len() == 0 {
        Seq::empty()
    } else if s.last().kind@ == "identifier"@ {
        identifiers(s.drop_last()).push(s.last().text@)
    } else {
        identifiers(s.drop_last())
    }
}

/// The extends part of a formatted model: ` extends A, B` when it names parents.
pub open spec fn extends_text(node: SyntaxNode) -> Seq<char> {
    match field_child(node, "extends"@) {
        Some(e) => if identifiers(e.children@).len() > 0 {
            seq![' ', 'e', 'x', 't', 'e', 'n', 'd', 's', ' '] + joined(identifiers(e.children@), seq![',', ' '])
        } else {
            Seq::empty()
        },
        None => Seq::empty(),
    }
}

/// Whether a body member is left out of a formatted model: a brace or a line break.
pub open spec fn skipped_member(m: SyntaxNode) -> bool {
    m.kind@ == "{"@ || m.kind@ == "}"@ || is_break_kind(m.kind@)
}

/// A formatted body member: a field line, or any other member's text indented.
pub open spec fn member_line(m: SyntaxNode, model: Seq<char>, assignments: Seq<IdAssignment>, indent: Seq<char>) -> Seq<char> {
    if m.kind@ == "field_definition"@ {
        field_line(m, model, assignments, indent)
    } else {
        indent + m.text@
    }
}

/// The formatted lines of a model body, each ending in a newline.
pub open spec fn members_text(s: Seq<SyntaxNode>, model: Seq<char>, assignments: Seq<IdAssignment>, indent: Seq<char>) -> Seq<char>
    decreases s.len(),
{
    if s.len() == 0 {
        Seq::empty()
    } else if skipped_member(s.last()) {
        members_text(s.drop_last(), model, assignments, indent)
    } else {
        members_text(s.drop_last(), model, assignments, indent) + member_line(s.last(), model, assignments, indent) + seq!['\n']
    }
}

/// A formatted model: name, extends part, ` {`, one line per member, `}` and the ID.
pub open spec fn model_text(node: SyntaxNode, assignments: Seq<IdAssignment>, indent: Seq<char>) -> Seq<char> {
    let name = field_text_or_empty(node, "name"@);
    name + extends_text(node) + seq![' ', '{', '\n']
        + match field_child(node, "body"@) {
            Some(body) => members_text(body.children@, name, assignments, indent),
            None => Seq::empty(),
        }
        + seq!['}']
        + id_text(node, assigned_for(assignments, EntityType::Model, name, None))
}

fn push_extends(out: &mut Vec<char>, node: &SyntaxNode)
    ensures
        final(out)@ == old(out)@ + extends_text(*node),
{
    proof { reveal_strlit("extends"); }
    match node.child_by_field_name("extends") {
        Some(e) => {
            let mut parts: Vec<char> = Vec::new();
            let mut count: usize = 0;
            let mut i: usize = 0;
            proof { assert(e.children@.take(0) =~= Seq::<SyntaxNode>::empty()); }
            while i < e.children.len()
                invariant
                    i <= e.children@.len(),
                    count == identifiers(e.children@.take(i as int)).len(),
                    count <= i,
                    parts@ == joined(identifiers(e.children@.take(i as int)), seq![',', ' ']),
                decreases e.children@.len() - i,
            {
                let ghost before = e.children@.take(i as int);
                proof {
                    assert(e.children@.take(i + 1).drop_last() =~= before);
                    assert(e.children@.take(i + 1).last() == e.children@[i as int]);
                }
                if e.children[i].is_kind("identifier") {
                    proof { lemma_joined_push(identifiers(before), seq![',', ' '], e.children@[i as int].text@); }
                    if count > 0 {
                        parts.push(',');
                        parts.push(' ');
                    }
                    push_str(&mut parts, e.children[i].text.as_str());
                    count = count + 1;
                    proof { assert(parts@ =~= joined(identifiers(e.children@.take(i + 1)), seq![',', ' '])); }
                }
                i = i + 1;
            }
            proof { assert(e.children@.take(i as int) =~= e.children@); }
            if count > 0 {
                push_str(out, " extends ");
                push_all(out, parts.as_slice());
                proof {
                    reveal_strlit(" extends ");
                    assert(" extends "@ =~= seq![' ', 'e', 'x', 't', 'e', 'n', 'd', 's', ' ']);
                    assert(final(out)@ =~= old(out)@ + extends_text(*node));
                }
            } else {
                proof { assert(old(out)@ + extends_text(*node) =~= old(out)@); }
            }
        },
        None => {
            proof { assert(old(out)@ + extends_text(*node) =~= old(out)@); }
        },
    }
}

/// Formats a model definition (see `model_text`).
pub fn format_model(node: &SyntaxNode, assignments: &Vec<IdAssignment>, indent: &[char]) -> (r: Vec<char>)
    ensures
        r@ == model_text(*node, assignments@, indent@),
{
    proof { reveal_strlit("name"); reveal_strlit("body"); }
    let model_name = node.field_text_or_empty("name");
    let mut out: Vec<char> = Vec::new();
    push_str(&mut out, model_name.as_str());
    push_extends(&mut out, node);
    out.push(' ');
    out.push('{');
    out.push('\n');
    let ghost head = out@;
    match node.child_by_field_name("body") {
        Some(body) => {
            let mut i: usize = 0;
            proof { assert(body.children@.take(0) =~= Seq::<SyntaxNode>::empty()); }
            while i < body.children.len()
                invariant
                    i <= body.children@.len(),
                    out@ == head + members_text(body.children@.take(i as int), model_name@, assignments@, indent@),
                decreases body.children@.len() - i,
            {
                let member = &body.children[i];
                let ghost before = body.children@.take(i as int);
                proof {
                    assert(body.children@.take(i + 1).drop_last() =~= before);
                    assert(body.children@.take(i + 1).last() == body.children@[i as int]);
                }
                let skip = member.is_kind("{") || member.is_kind("}") || break_kind(member);
                if !skip {
                    if member.is_kind("field_definition") {
                        let line = format_field(member, model_name.as_str(), assignments, indent);
                        push_all(&mut out, line.as_slice());
                    } else {
                        push_all(&mut out, indent);
                        push_str(&mut out, member.text.as_str());
                    }
                    out.push('\n');
                }
                proof {
                    assert(out@ =~= head + members_text(body.children@.take(i + 1), model_name@, assignments@, indent@));
                }
                i = i + 1;
            }
            proof { assert(body.children@.take(i as int) =~= body.children@); }
        },
        None => {
            proof { assert(out@ =~= head + Seq::<char>::empty()); }
        },
    }
    out.push('}');
    let assigned = lookup_assignment(assignments, EntityType::Model, model_name.as_str(), None);
    push_id(&mut out, node, assigned);
    proof { assert(out@ =~= model_text(*node, assignments@, indent@)); }
    out
}

/// A formatted top-level node: a comment or any node other than a type alias or
/// model as written; type aliases and models formatted.
pub open spec fn item_text(c: SyntaxNode, assignments: Seq<IdAssignment>, indent: Seq<char>) -> Seq<char> {
    if c.kind@ == "comment"@ {
        c.text@
    } else if c.kind@ == "type_alias"@ {
        type_alias_text(c, assignments)
    } else if c.kind@ == "model_definition"@ {
        model_text(c, assignments, indent)
    } else {
        c.text@
    }
}

/// A formatted document: each top-level node but line breaks formatted on its own line,
/// with a blank line between two of them.
pub open spec fn source_text(s: Seq<SyntaxNode>, assignments: Seq<IdAssignment>, indent: Seq<char>) -> Seq<char>
    decreases s.len(),
{
    if s.len() == 0 {
        Seq::empty()
    } else if is_break_kind(s.last().kind@) {
        source_text(s.drop_last(), assignments, indent)
    } else {
        let prev = source_text(s.drop_last(), assignments, indent);
        (if prev.len() == 0 { prev } else { prev.push('\n') }) + item_text(s.last(), assignments, indent) + seq!['\n']
    }
}

/// Formats a whole document with the given indentation, writing assigned IDs onto the
/// entities that lack one (see `source_text`).
pub fn format_source(root: &SyntaxNode, assignments: &Vec<IdAssignment>, indent_size: usize) -> (r: String)
    ensures
        r@ == source_text(root.children@, assignments@, spaces(indent_size as nat)),
{
    let mut indent: Vec<char> = Vec::new();
    let mut k: usize = 0;
    while k < indent_size
        invariant
            k <= indent_size,
            indent@ == spaces(k as nat),
        decreases indent_size - k,
    {
        indent.push(' ');
        k = k + 1;
        proof { assert(indent@ =~= spaces(k as nat)); }
    }
    let mut out: Vec<char> = Vec::new();
    let mut i: usize = 0;
    proof { assert(root.children@.take(0) =~= Seq::<SyntaxNode>::empty()); }
    while i < root.children.len()
        invariant
            i <= root.children@.len(),
            indent@ == spaces(indent_size as nat),
            out@ == source_text(root.children@.take(i as int), assignments@, indent@),
        decreases root.children@.len() - i,
    {
        let child = &root.children[i];
        let ghost before = root.children@.take(i as int);
        proof {
            assert(root.children@.take(i + 1).drop_last() =~= before);
            assert(root.children@.take(i + 1).last() == root.children@[i as int]);
        }
        if !break_kind(child) {
            let formatted: Vec<char> = if child.is_kind("comment") {
                crate::text::chars_of(child.text.as_str())
            } else if child.is_kind("type_alias") {
                format_type_alias(child, assignments)
            } else if child.is_kind("model_definition") {
                format_model(child, assignments, indent.as_slice())
            } else {
                crate::text::chars_of(child.text.as_str())
            };
            if out.len() > 0 {
                out.push('\n');
            }
            push_all(&mut out, formatted.as_slice());
            out.push('\n');
        }
        proof { assert(out@ =~= source_text(root.children@.take(i + 1), assignments@, indent@)); }
        i = i + 1;
    }
    proof { assert(root.children@.take(i as int) =~= root.children@); }
    string_from_chars(out.as_slice())
}

} // verus!
