//! A mathematical model of JSON text and the verified pieces that frame
//! already-serialized fragments into larger documents.
use vstd::prelude::*;
use vstd::string::*;

verus! {

/// What a JSON text denotes. Texts are written without insignificant
/// whitespace, so each value has exactly one rendering.
pub enum JsonValue {
    Null,
    Bool(bool),
    Num(int),
    Str(Seq<char>),
    Arr(Seq<JsonValue>),
    Obj(Seq<(Seq<char>, JsonValue)>),
}

pub open spec fn digit_char(d: nat) -> char {
    if d == 0 { '0' } else if d == 1 { '1' } else if d == 2 { '2' } else if d == 3 { '3' }
    else if d == 4 { '4' } else if d == 5 { '5' } else if d == 6 { '6' } else if d == 7 { '7' }
    else if d == 8 { '8' } else { '9' }
}

/// Decimal digits of a natural number, most significant first.
pub open spec fn decimal(n: nat) -> Seq<char>
    decreases n,
{
    if n < 10 {
        seq![digit_char(n)]
    } else {
        decimal(n / 10) + seq![digit_char(n % 10)]
    }
}

pub open spec fn hex_char(d: nat) -> char {
    if d < 10 { digit_char(d) } else if d == 10 { 'a' } else if d == 11 { 'b' }
    else if d == 12 { 'c' } else if d == 13 { 'd' } else if d == 14 { 'e' } else { 'f' }
}

/// How one character of a string is written between the quotes.
pub open spec fn escape_char(c: char) -> Seq<char> {
    if c == '"' {
        seq!['\\', '"']
    } else if c == '\\' {
        seq!['\\', '\\']
    } else if (c as u32) < 0x20 {
        seq!['\\', 'u', '0', '0', hex_char((c as u32 / 16) as nat), hex_char((c as u32 % 16) as nat)]
    } else {
        seq![c]
    }
}

pub open spec fn escape(s: Seq<char>) -> Seq<char>
    decreases s.len(),
{
    if s.len() == 0 {
        seq![]
    } else {
        escape(s.drop_last()) + escape_char(s.last())
    }
}

/// A string literal: the characters escaped, between quotes.
pub open spec fn string_text(s: Seq<char>) -> Seq<char> {
    seq!['"'] + escape(s) + seq!['"']
}

/// The parts separated by commas.
pub open spec fn join(parts: Seq<Seq<char>>) -> Seq<char>
    decreases parts.len(),
{
    if parts.len() == 0 {
        seq![]
    } else if parts.len() == 1 {
        parts[0]
    } else {
        join(parts.drop_last()) + seq![','] + parts.last()
    }
}

/// An array whose elements are the given texts.
pub open spec fn array_text(parts: Seq<Seq<char>>) -> Seq<char> {
    seq!['['] + join(parts) + seq![']']
}

pub open spec fn member_text(key: Seq<char>, value: Seq<char>) -> Seq<char> {
    string_text(key) + seq![':'] + value
}

/// An object whose members are the given keys with the given value texts.
pub open spec fn object_text(members: Seq<(Seq<char>, Seq<char>)>) -> Seq<char> {
    seq!['{'] + join(members.map_values(|m: (Seq<char>, Seq<char>)| member_text(m.0, m.1)))
        + seq!['}']
}

/// The text of a value.
pub open spec fn render(v: JsonValue) -> Seq<char>
    decreases v,
{
    match v {
        JsonValue::Null => seq!['n', 'u', 'l', 'l'],
        JsonValue::Bool(b) => if b { seq!['t', 'r', 'u', 'e'] } else { seq!['f', 'a', 'l', 's', 'e'] },
        JsonValue::Num(n) => if n < 0 { seq!['-'] + decimal((-n) as nat) } else { decimal(n as nat) },
        JsonValue::Str(s) => string_text(s),
        JsonValue::Arr(items) => array_text(render_items(items)),
        JsonValue::Obj(members) => object_text(render_members(members)),
    }
}

/// The texts of a list of values.
pub open spec fn render_items(items: Seq<JsonValue>) -> Seq<Seq<char>>
    decreases items,
{
    if items.len() == 0 {
        seq![]
    } else {
        render_items(items.drop_last()).push(render(items.last()))
    }
}

/// The members of an object with their values rendered.
pub open spec fn render_members(members: Seq<(Seq<char>, JsonValue)>) -> Seq<(Seq<char>, Seq<char>)>
    decreases members,
{
    if members.len() == 0 {
        seq![]
    } else {
        render_members(members.drop_last()).push(
            (members.last().0, render(members.last().1)),
        )
    }
}

/// A text is JSON when it is the rendering of some value.
pub open spec fn is_json(s: Seq<char>) -> bool {
    exists|v: JsonValue| render(v) == s
}


/// The texts held by a list of strings.
pub open spec fn texts(v: Seq<String>) -> Seq<Seq<char>> {
    v.map_values(|s: String| s@)
}

pub proof fn lemma_join_push(parts: Seq<Seq<char>>, p: Seq<char>)
    ensures
        join(parts.push(p)) == if parts.len() == 0 { p } else { join(parts) + seq![','] + p },
{
    assert(parts.push(p).drop_last() =~= parts);
}

/// Frames the given JSON texts, in order, as the elements of one array; no
/// element is parsed or changed. No texts give `[]`.
pub fn frame_array(parts: &Vec<String>) -> (r: String)
    ensures
        r@ == array_text(texts(parts@)),
        parts@.len() == 0 ==> r@ == seq!['[', ']'],
{
    proof {
        reveal_strlit("[");
        reveal_strlit("]");
        reveal_strlit(",");
    }
    let mut r = String::from_str("[");
    assert(texts(parts@).take(0) =~= Seq::<Seq<char>>::empty());
    let ghost ts = texts(parts@);
    let mut i: usize = 0;
    while i < parts.len()
        invariant
            i <= parts@.len(),
            ts == texts(parts@),
            r@ == seq!['['] + join(ts.take(i as int)),
        decreases parts@.len() - i,
    {
        proof {
            assert(ts.take(i as int + 1) =~= ts.take(i as int).push(ts[i as int]));
            lemma_join_push(ts.take(i as int), ts[i as int]);
        }
        proof {
            reveal_strlit(",");
        }
        if i > 0 {
            r.append(",");
        }
        r.append(parts[i].as_str());
        assert(texts(parts@)[i as int] == parts@[i as int]@);
        i = i + 1;
    }
    assert(ts.take(i as int) =~= ts);
    proof {
        reveal_strlit("]");
    }
    r.append("]");
    r
}


pub proof fn lemma_render_items(vals: Seq<JsonValue>, parts: Seq<Seq<char>>)
    requires
        vals.len() == parts.len(),
        forall|i: int| 0 <= i < vals.len() ==> render(#[trigger] vals[i]) == parts[i],
    ensures
        render_items(vals) == parts,
    decreases vals.len(),
{
    if vals.len() > 0 {
        lemma_render_items(vals.drop_last(), parts.drop_last());
        assert(parts.drop_last().push(parts.last()) =~= parts);
    }
}

pub proof fn lemma_render_members(
    vals: Seq<(Seq<char>, JsonValue)>,
    members: Seq<(Seq<char>, Seq<char>)>,
)
    requires
        vals.len() == members.len(),
        forall|i: int|
            0 <= i < vals.len() ==> (#[trigger] vals[i]).0 == members[i].0 && render(vals[i].1)
                == members[i].1,
    ensures
        render_members(vals) == members,
    decreases vals.len(),
{
    if vals.len() > 0 {
        lemma_render_members(vals.drop_last(), members.drop_last());
        assert(vals[vals.len() - 1].0 == members[members.len() - 1].0);
        assert(members.drop_last().push(members.last()) =~= members);
    }
}

/// An array whose elements are JSON texts is itself a JSON text.
pub proof fn lemma_array_is_json(parts: Seq<Seq<char>>)
    requires
        forall|i: int| 0 <= i < parts.len() ==> is_json(#[trigger] parts[i]),
    ensures
        is_json(array_text(parts)),
{
    let vals = Seq::new(parts.len(), |i: int| choose|v: JsonValue| render(v) == parts[i]);
    assert forall|i: int| 0 <= i < vals.len() implies render(#[trigger] vals[i]) == parts[i] by {
        assert(is_json(parts[i]));
    }
    lemma_render_items(vals, parts);
    assert(render(JsonValue::Arr(vals)) == array_text(parts));
}

/// An object whose member values are JSON texts is itself a JSON text.
pub proof fn lemma_object_is_json(members: Seq<(Seq<char>, Seq<char>)>)
    requires
        forall|i: int| 0 <= i < members.len() ==> is_json(#[trigger] members[i].1),
    ensures
        is_json(object_text(members)),
{
    let vals = Seq::new(
        members.len(),
        |i: int| (members[i].0, choose|v: JsonValue| render(v) == members[i].1),
    );
    assert forall|i: int| 0 <= i < vals.len() implies (#[trigger] vals[i]).0 == members[i].0
        && render(vals[i].1) == members[i].1 by {
        assert(is_json(members[i].1));
    }
    lemma_render_members(vals, members);
    assert(render(JsonValue::Obj(vals)) == object_text(members));
}

/// A character that a string literal holds as it is.
pub open spec fn plain_char(c: char) -> bool {
    c != '"' && c != '\\' && (c as u32) >= 0x20
}

pub proof fn lemma_escape_plain(s: Seq<char>)
    requires
        forall|i: int| 0 <= i < s.len() ==> plain_char(#[trigger] s[i]),
    ensures
        escape(s) == s,
    decreases s.len(),
{
    if s.len() > 0 {
        lemma_escape_plain(s.drop_last());
        assert(plain_char(s[s.len() - 1]));
        assert(s.drop_last() + seq![s.last()] =~= s);
    }
}

/// The text has the outer shape of an object: braces at both ends.
pub open spec fn object_shaped(s: Seq<char>) -> bool {
    s.len() >= 2 && s[0] == '{' && s.last() == '}'
}

/// The object text with one more member written before its closing brace.
pub open spec fn with_member(object: Seq<char>, member: Seq<char>) -> Seq<char> {
    if object.len() == 2 {
        seq!['{'] + member + seq!['}']
    } else {
        object.drop_last() + seq![','] + member + seq!['}']
    }
}

/// Writing a member into the text of an object gives the text of the object
/// with that member added last.
pub proof fn lemma_with_member(
    members: Seq<(Seq<char>, Seq<char>)>,
    key: Seq<char>,
    value: Seq<char>,
)
    ensures
        with_member(object_text(members), member_text(key, value)) == object_text(
            members.push((key, value)),
        ),
{
    let f = |m: (Seq<char>, Seq<char>)| member_text(m.0, m.1);
    let mapped = members.map_values(f);
    assert(members.push((key, value)).map_values(f) =~= mapped.push(member_text(key, value)));
    lemma_join_push(mapped, member_text(key, value));
    if members.len() == 0 {
        assert(mapped =~= Seq::<Seq<char>>::empty());
    } else {
        assert(join(mapped).len() > 0) by {
            if mapped.len() == 1 {
                assert(mapped[0] == member_text(members[0].0, members[0].1));
            }
        }
        let o = object_text(members);
        assert(o.drop_last() =~= seq!['{'] + join(mapped));
    }
}

} // verus!
