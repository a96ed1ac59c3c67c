//! The compact JSON encoding of recorded view states and deltas, by which their byte
//! limits are measured. Object members stand in ascending key order, strings are
//! escaped as `serde_json` escapes them, and a window's presentation text (already
//! compact JSON of an object) contributes its members.
use vstd::prelude::*;

use crate::text::{decimal, decimal_text, hex_digits, hex_text, push_char, to_chars, utf8_len};
use crate::view_delta::text_views;
use crate::view_state::{canon_view, state_view, CanonView, CanonicalWindow, StateEntry, StateView};

verus! {

/// The JSON escape of one character inside a string.
pub open spec fn escape_char(c: char) -> Seq<char> {
    if c == '"' {
        seq!['\\', '"']
    } else if c == '\\' {
        seq!['\\', '\\']
    } else if c == '\u{8}' {
        seq!['\\', 'b']
    } else if c == '\t' {
        seq!['\\', 't']
    } else if c == '\n' {
        seq!['\\', 'n']
    } else if c == '\u{c}' {
        seq!['\\', 'f']
    } else if c == '\r' {
        seq!['\\', 'r']
    } else if (c as u32) < 0x20 {
        seq!['\\', 'u', '0', '0'] + hex_digits(c as u32 as nat, 2)
    } else {
        seq![c]
    }
}

/// The escaped characters of a text.
pub open spec fn escaped(s: Seq<char>) -> Seq<char>
    decreases s.len(),
{
    if s.len() == 0 {
        seq![]
    } else {
        escaped(s.drop_last()) + escape_char(s.last())
    }
}

/// A JSON string literal.
pub open spec fn json_string(s: Seq<char>) -> Seq<char> {
    seq!['"'] + escaped(s) + seq!['"']
}

/// The members of a compact JSON object text: the text between its braces.
pub open spec fn members_of(object: Seq<char>) -> Seq<char> {
    if object.len() >= 2 {
        object.subrange(1, object.len() - 1)
    } else {
        seq![]
    }
}

/// The JSON object of a canonical window: its identity fields, then its presentation
/// members.
pub open spec fn window_text(w: CanonView) -> Seq<char> {
    let m = members_of(w.4);
    "{\"app_name\":"@ + json_string(w.0) + ",\"pid\":"@ + decimal(w.1 as nat)
        + ",\"process_instance\":"@ + json_string(w.2) + ",\"title\":"@ + json_string(w.3) + (if m.len()
        > 0 {
        seq![','] + m
    } else {
        seq![]
    }) + seq!['}']
}

/// `{"key":K,"state":W}`.
pub open spec fn keyed_text(e: (Seq<char>, CanonView)) -> Seq<char> {
    "{\"key\":"@ + json_string(e.0) + ",\"state\":"@ + window_text(e.1) + seq!['}']
}

/// `{"key":K}`.
pub open spec fn key_text(k: Seq<char>) -> Seq<char> {
    "{\"key\":"@ + json_string(k) + seq!['}']
}

/// `"K":W`, a member of a state object.
pub open spec fn member_text(e: (Seq<char>, CanonView)) -> Seq<char> {
    json_string(e.0) + seq![':'] + window_text(e.1)
}

/// Items joined by commas.
pub open spec fn joined(items: Seq<Seq<char>>) -> Seq<char>
    decreases items.len(),
{
    if items.len() == 0 {
        seq![]
    } else if items.len() == 1 {
        items[0]
    } else {
        joined(items.drop_last()) + seq![','] + items.last()
    }
}

/// The JSON object of a recorded state: each window under its key.
pub open spec fn state_text(s: StateView) -> Seq<char> {
    seq!['{'] + joined(s.map_values(|e: (Seq<char>, CanonView)| member_text(e))) + seq!['}']
}

/// The JSON object of a delta: `{"added":[..],"changed":[..],"removed":[..]}`.
pub open spec fn delta_text(added: StateView, removed: Seq<Seq<char>>, changed: StateView) -> Seq<char> {
    "{\"added\":["@ + joined(added.map_values(|e: (Seq<char>, CanonView)| keyed_text(e)))
        + "],\"changed\":["@ + joined(changed.map_values(|e: (Seq<char>, CanonView)| keyed_text(e)))
        + "],\"removed\":["@ + joined(removed.map_values(|k: Seq<char>| key_text(k))) + "]}"@
}

/// Appends a text.
pub fn push_text(out: &mut String, s: &str)
    ensures
        final(out)@ == old(out)@ + s@,
{
    let chars = to_chars(s);
    let ghost start = out@;
    let mut i: usize = 0;
    while i < chars.len()
        invariant
            i <= chars.len(),
            chars@ == s@,
            out@ == start + s@.take(i as int),
        decreases chars.len() - i,
    {
        push_char(out, chars[i]);
        assert(s@.take(i + 1) =~= s@.take(i as int).push(chars@[i as int]));
        i = i + 1;
    }
    assert(s@.take(i as int) =~= s@);
}

/// Appends a JSON string literal.
pub fn push_json_string(out: &mut String, s: &str)
    ensures
        final(out)@ == old(out)@ + json_string(s@),
{
    let ghost start = out@;
    push_char(out, '"');
    let chars = to_chars(s);
    let mut i: usize = 0;
    while i < chars.len()
        invariant
            i <= chars.len(),
            chars@ == s@,
            out@ == start + seq!['"'] + escaped(s@.take(i as int)),
        decreases chars.len() - i,
    {
        let c = chars[i];
        let ghost before = out@;
        if c == '"' {
            push_char(out, '\\');
            push_char(out, '"');
        } else if c == '\\' {
            push_char(out, '\\');
            push_char(out, '\\');
        } else if c == '\u{8}' {
            push_char(out, '\\');
            push_char(out, 'b');
        } else if c == '\t' {
            push_char(out, '\\');
            push_char(out, 't');
        } else if c == '\n' {
            push_char(out, '\\');
            push_char(out, 'n');
        } else if c == '\u{c}' {
            push_char(out, '\\');
            push_char(out, 'f');
        } else if c == '\r' {
            push_char(out, '\\');
            push_char(out, 'r');
        } else if (c as u32) < 0x20 {
            push_char(out, '\\');
            push_char(out, 'u');
            push_char(out, '0');
            push_char(out, '0');
            let digits = hex_text(c as u32 as u64, 2);
            push_text(out, digits.as_str());
        } else {
            push_char(out, c);
        }
        assert(out@ =~= before + escape_char(c));
        assert(s@.take(i + 1).drop_last() =~= s@.take(i as int));
        i = i + 1;
    }
    assert(s@.take(i as int) =~= s@);
    push_char(out, '"');
}

/// Appends the JSON object of a canonical window.
pub fn push_window(out: &mut String, w: &CanonicalWindow)
    ensures
        final(out)@ == old(out)@ + window_text(canon_view(*w)),
{
    let ghost start = out@;
    let ghost v = canon_view(*w);
    push_text(out, "{\"app_name\":");
    push_json_string(out, w.app_name.as_str());
    push_text(out, ",\"pid\":");
    let pid = decimal_text(w.pid);
    push_text(out, pid.as_str());
    push_text(out, ",\"process_instance\":");
    push_json_string(out, w.process_instance.as_str());
    push_text(out, ",\"title\":");
    push_json_string(out, w.title.as_str());
    let ghost head = out@;
    let p = to_chars(w.presentation.as_str());
    let ghost m = members_of(v.4);
    if p.len() > 2 {
        push_char(out, ',');
        let mut i: usize = 1;
        while i < p.len() - 1
            invariant
                1 <= i <= p.len() - 1,
                p@ == v.4,
                m == v.4.subrange(1, v.4.len() - 1),
                out@ == head + seq![','] + v.4.subrange(1, i as int),
            decreases p.len() - 1 - i,
        {
            push_char(out, p[i]);
            assert(v.4.subrange(1, i + 1) =~= v.4.subrange(1, i as int).push(p@[i as int]));
            i = i + 1;
        }
    } else {
        assert(m.len() == 0);
    }
    push_char(out, '}');
    assert(out@ =~= start + window_text(v));
}

fn push_keyed(out: &mut String, e: &StateEntry)
    ensures
        final(out)@ == old(out)@ + keyed_text((e.key@, canon_view(e.window))),
{
    let ghost start = out@;
    push_text(out, "{\"key\":");
    push_json_string(out, e.key.as_str());
    push_text(out, ",\"state\":");
    push_window(out, &e.window);
    push_char(out, '}');
    assert(out@ =~= start + keyed_text((e.key@, canon_view(e.window))));
}

fn push_member(out: &mut String, e: &StateEntry)
    ensures
        final(out)@ == old(out)@ + member_text((e.key@, canon_view(e.window))),
{
    let ghost start = out@;
    push_json_string(out, e.key.as_str());
    push_char(out, ':');
    push_window(out, &e.window);
    assert(out@ =~= start + member_text((e.key@, canon_view(e.window))));
}

/// The JSON text of a recorded state.
pub fn state_json_text(s: &Vec<StateEntry>) -> (r: String)
    ensures
        r@ == state_text(state_view(s@)),
{
    let ghost v = state_view(s@);
    let ghost items = v.map_values(|e: (Seq<char>, CanonView)| member_text(e));
    let mut out = String::new();
    push_char(&mut out, '{');
    let mut i: usize = 0;
    while i < s.len()
        invariant
            i <= s.len(),
            v == state_view(s@),
            items == v.map_values(|e: (Seq<char>, CanonView)| member_text(e)),
            out@ == seq!['{'] + joined(items.take(i as int)),
        decreases s.len() - i,
    {
        let ghost before = out@;
        if i > 0 {
            push_char(&mut out, ',');
        }
        push_member(&mut out, &s[i]);
        proof {
            assert(items.take(i + 1).drop_last() =~= items.take(i as int));
            assert(items[i as int] == member_text(v[i as int]));
            if i == 0 {
                assert(joined(items.take(0)) =~= Seq::<char>::empty());
            }
            assert(out@ =~= seq!['{'] + joined(items.take(i + 1)));
        }
        i = i + 1;
    }
    assert(items.take(i as int) =~= items);
    push_char(&mut out, '}');
    out
}

fn push_keyed_list(out: &mut String, s: &Vec<StateEntry>)
    ensures
        final(out)@ == old(out)@ + joined(state_view(s@).map_values(|e: (Seq<char>, CanonView)| keyed_text(e))),
{
    let ghost start = out@;
    let ghost v = state_view(s@);
    let ghost items = v.map_values(|e: (Seq<char>, CanonView)| keyed_text(e));
    let mut i: usize = 0;
    while i < s.len()
        invariant
            i <= s.len(),
            v == state_view(s@),
            items == v.map_values(|e: (Seq<char>, CanonView)| keyed_text(e)),
            out@ == start + joined(items.take(i as int)),
        decreases s.len() - i,
    {
        if i > 0 {
            push_char(out, ',');
        }
        push_keyed(out, &s[i]);
        proof {
            assert(items.take(i + 1).drop_last() =~= items.take(i as int));
            assert(items[i as int] == keyed_text(v[i as int]));
            if i == 0 {
                assert(joined(items.take(0)) =~= Seq::<char>::empty());
            }
            assert(out@ =~= start + joined(items.take(i + 1)));
        }
        i = i + 1;
    }
    assert(items.take(i as int) =~= items);
}

fn push_key_list(out: &mut String, s: &Vec<String>)
    ensures
        final(out)@ == old(out)@ + joined(text_views(s@).map_values(|k: Seq<char>| key_text(k))),
{
    let ghost start = out@;
    let ghost items = text_views(s@).map_values(|k: Seq<char>| key_text(k));
    let mut i: usize = 0;
    while i < s.len()
        invariant
            i <= s.len(),
            items == text_views(s@).map_values(|k: Seq<char>| key_text(k)),
            out@ == start + joined(items.take(i as int)),
        decreases s.len() - i,
    {
        if i > 0 {
            push_char(out, ',');
        }
        push_text(out, "{\"key\":");
        push_json_string(out, s[i].as_str());
        push_char(out, '}');
        proof {
            assert(items.take(i + 1).drop_last() =~= items.take(i as int));
            assert(items[i as int] == key_text(s@[i as int]@));
            if i == 0 {
                assert(joined(items.take(0)) =~= Seq::<char>::empty());
            }
            assert(out@ =~= start + joined(items.take(i + 1)));
        }
        i = i + 1;
    }
    assert(items.take(i as int) =~= items);
}

/// The JSON text of a delta's three lists.
pub fn delta_json_text(added: &Vec<StateEntry>, removed: &Vec<String>, changed: &Vec<StateEntry>) -> (r: String)
    ensures
        r@ == delta_text(state_view(added@), text_views(removed@), state_view(changed@)),
{
    let mut out = String::new();
    push_text(&mut out, "{\"added\":[");
    push_keyed_list(&mut out, added);
    push_text(&mut out, "],\"changed\":[");
    push_keyed_list(&mut out, changed);
    push_text(&mut out, "],\"removed\":[");
    push_key_list(&mut out, removed);
    push_text(&mut out, "]}");
    out
}

/// Bytes of a text's UTF-8 encoding.
pub fn utf8_byte_len(s: &str) -> (r: usize)
    ensures
        r == utf8_len(s@),
{
    s.as_bytes().len()
}

} // verus!
