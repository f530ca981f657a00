//! Audit lines: a kind and `key=value` fields in one line each.

use vstd::prelude::*;

use crate::text::chars_of;

verus! {

/// An audit event being written.
pub struct Event {
    pub kind: &'static str,
    pub buf: String,
}

/// Line breaks and field separators inside a value become spaces.
pub open spec fn escape_char(c: char) -> char {
    if c == '\n' || c == '\r' || c == '|' {
        ' '
    } else {
        c
    }
}

pub open spec fn escaped(s: Seq<char>) -> Seq<char> {
    s.map_values(|c: char| escape_char(c))
}

/// One field of a line.
pub open spec fn field_text(key: Seq<char>, value: Seq<char>) -> Seq<char> {
    "|"@ + key + "="@ + escaped(value)
}

fn append_escaped(buf: &mut String, value: &str)
    ensures
        final(buf)@ == old(buf)@ + escaped(value@),
{
    let v = chars_of(value);
    let ghost head = buf@;
    let mut i: usize = 0;
    proof {
        assert(head + escaped(v@.take(0)) =~= head);
    }
    while i < v.len()
        invariant
            i <= v.len(),
            buf@ == head + escaped(v@.take(i as int)),
        decreases v.len() - i,
    {
        let c: char = v[i];
        if c == '\n' || c == '\r' || c == '|' {
            buf.push(' ');
        } else {
            buf.push(c);
        }
        proof {
            assert(head + escaped(v@.take(i + 1)) =~= (head + escaped(v@.take(i as int))).push(
                escape_char(c),
            ));
        }
        i += 1;
    }
    proof {
        assert(v@.take(v@.len() as int) =~= value@);
    }
}

impl Event {
    pub fn new(kind: &'static str) -> (r: Event)
        ensures
            r.kind == kind,
            r.buf@ == Seq::<char>::empty(),
    {
        Event { kind, buf: String::new() }
    }

    /// Adds a field with the rendered value.
    pub fn field(self, key: &str, value: &str) -> (r: Event)
        ensures
            r.kind == self.kind,
            r.buf@ == self.buf@ + field_text(key@, value@),
    {
        let kind = self.kind;
        let mut buf = self.buf;
        buf.append("|");
        buf.append(key);
        buf.append("=");
        append_escaped(&mut buf, value);
        proof {
            assert(buf@ =~= self.buf@ + field_text(key@, value@));
        }
        Event { kind, buf }
    }

    /// Adds a field where there is a value.
    pub fn field_opt(self, key: &str, value: Option<&str>) -> (r: Event)
        ensures
            match value {
                Some(v) => r.kind == self.kind && r.buf@ == self.buf@ + field_text(key@, v@),
                None => r == self,
            },
    {
        match value {
            Some(v) => self.field(key, v),
            None => self,
        }
    }

    /// The finished line.
    pub fn emit(self) -> (r: String)
        ensures
            r@ == "[AUDIT] "@ + self.kind@ + self.buf@,
    {
        let mut s = String::from_str("[AUDIT] ");
        s.append(self.kind);
        s.append(self.buf.as_str());
        s
    }
}

/// Starts an event of the given kind.
pub fn event(kind: &'static str) -> (r: Event)
    ensures
        r.kind == kind,
        r.buf@ == Seq::<char>::empty(),
{
    Event::new(kind)
}

/// A value adds no line break and no separator of its own to a line.
pub proof fn law_values_cannot_break_the_line(value: Seq<char>, i: int)
    requires
        0 <= i < escaped(value).len(),
    ensures
        escaped(value)[i] != '\n',
        escaped(value)[i] != '\r',
        escaped(value)[i] != '|',
        escaped(value).len() == value.len(),
{
}

/// Every other character of a value stays as it is, in its place; what would break
/// the line becomes a space.
pub proof fn law_other_characters_stay(value: Seq<char>, i: int)
    requires
        0 <= i < value.len(),
    ensures
        value[i] != '\n' && value[i] != '\r' && value[i] != '|' ==> escaped(value)[i] == value[i],
        value[i] == '\n' || value[i] == '\r' || value[i] == '|' ==> escaped(value)[i] == ' ',
{
}

/// A field begins with the separator, its key and an equals sign.
pub proof fn law_field(key: Seq<char>, value: Seq<char>)
    ensures
        field_text(key, value).len() == key.len() + value.len() + 2,
        field_text(key, value)[0] == '|',
        field_text(key, value).subrange(1, 1 + key.len() as int) == key,
        field_text(key, value)[1 + key.len() as int] == '=',
        field_text(key, value).skip(2 + key.len() as int) == escaped(value),
{
    reveal_strlit("|");
    reveal_strlit("=");
    assert(field_text(key, value).subrange(1, 1 + key.len() as int) =~= key);
    assert(field_text(key, value).skip(2 + key.len() as int) =~= escaped(value));
}

} // verus!
