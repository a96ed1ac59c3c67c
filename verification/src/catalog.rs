//! The MCP tool catalog: every callable CLI command is a tool named `desktop_` followed
//! by the command with `-` turned into `_`; the catalog lists tools by name, and a tool
//! name leads back to its command.
use vstd::prelude::*;

use crate::text::{chars_less, chars_lt, lemma_chars_lt_asymmetric, lemma_chars_lt_irreflexive, lemma_chars_lt_total, lemma_chars_lt_transitive, concat, text_eq, to_chars};

verus! {

/// `-` becomes `_`.
pub open spec fn underscore(c: char) -> char {
    if c == '-' {
        '_'
    } else {
        c
    }
}

/// The tool name of a command: `desktop_` and the command with `-` turned into `_`.
pub open spec fn tool_name_of(command: Seq<char>) -> Seq<char> {
    "desktop_"@ + command.map_values(|c: char| underscore(c))
}

/// The tool name of a command.
pub fn tool_name_for_command(command: &str) -> (r: String)
    ensures
        r@ == tool_name_of(command@),
{
    let chars = to_chars(command);
    let mut out = concat("desktop_", "");
    let ghost prefix = out@;
    let mut i: usize = 0;
    while i < chars.len()
        invariant
            i <= chars.len(),
            chars@ == command@,
            out@ == prefix + command@.take(i as int).map_values(|c: char| underscore(c)),
        decreases chars.len() - i,
    {
        let c = chars[i];
        let u = if c == '-' { '_' } else { c };
        crate::text::push_char(&mut out, u);
        assert(command@.take(i + 1).map_values(|c: char| underscore(c)) =~= command@.take(
            i as int,
        ).map_values(|c: char| underscore(c)).push(u));
        i = i + 1;
    }
    assert(command@.take(i as int) =~= command@);
    proof {
        reveal_strlit("");
        assert(prefix =~= "desktop_"@);
    }
    out
}

/// Commands that are not offered as MCP tools.
pub open spec fn callable(name: Seq<char>) -> bool {
    name != "batch"@ && name != "cursor-overlay"@
}

/// `is_mcp_callable`.
pub fn is_mcp_callable(name: &str) -> (r: bool)
    ensures
        r == callable(name@),
{
    !text_eq(name, "batch") && !text_eq(name, "cursor-overlay")
}

/// The command of the first callable command whose tool name is `tool`.
pub open spec fn command_of_tool(commands: Seq<Seq<char>>, tool: Seq<char>) -> Option<Seq<char>>
    decreases commands.len(),
{
    if commands.len() == 0 {
        None
    } else if callable(commands[0]) && tool_name_of(commands[0]) == tool {
        Some(commands[0])
    } else {
        command_of_tool(commands.drop_first(), tool)
    }
}

/// The plain values of a list of texts.
pub open spec fn names(s: Seq<String>) -> Seq<Seq<char>> {
    s.map_values(|t: String| t@)
}

/// `command_for_tool` over a list of CLI commands.
pub fn command_for_tool_in(commands: &Vec<String>, tool: &str) -> (r: Option<String>)
    ensures
        match command_of_tool(names(commands@), tool@) {
            Some(c) => r matches Some(x) && x@ == c,
            None => r is None,
        },
{
    let ghost all = names(commands@);
    let mut i: usize = 0;
    assert(all.skip(0) =~= all);
    while i < commands.len()
        invariant
            i <= commands.len(),
            all == names(commands@),
            command_of_tool(all, tool@) == command_of_tool(all.skip(i as int), tool@),
        decreases commands.len() - i,
    {
        let ghost rest = all.skip(i as int);
        assert(rest[0] == commands@[i as int]@);
        assert(rest.drop_first() =~= all.skip(i + 1));
        let command = commands[i].as_str();
        if is_mcp_callable(command) {
            let name = tool_name_for_command(command);
            if text_eq(name.as_str(), tool) {
                return Some(commands[i].clone());
            }
        }
        i = i + 1;
    }
    assert(all.skip(i as int).len() == 0);
    None
}

/// The CLI commands the catalog is built from.
pub open spec fn cli_command_names() -> Seq<Seq<char>> {
    seq![
        "snapshot"@,
        "screenshot"@,
        "find"@,
        "get"@,
        "is"@,
        "list-windows"@,
        "list-apps"@,
        "list-surfaces"@,
        "list-notifications"@,
        "list-displays"@,
        "clipboard-get"@,
        "clipboard-clear"@,
        "mouse-move"@,
        "mouse-click"@,
        "mouse-down"@,
        "mouse-up"@,
        "mouse-wheel"@,
        "hover"@,
        "drag"@,
        "wait"@,
        "status"@,
        "permissions"@,
        "version"@,
        "skills"@,
        "batch"@,
        "cursor-overlay"@,
    ]
}

/// The CLI commands, in the order the command line declares them.
pub fn cli_commands() -> (r: Vec<String>)
    ensures
        names(r@) == cli_command_names(),
{
    let list: Vec<&str> = vec![
        "snapshot",
        "screenshot",
        "find",
        "get",
        "is",
        "list-windows",
        "list-apps",
        "list-surfaces",
        "list-notifications",
        "list-displays",
        "clipboard-get",
        "clipboard-clear",
        "mouse-move",
        "mouse-click",
        "mouse-down",
        "mouse-up",
        "mouse-wheel",
        "hover",
        "drag",
        "wait",
        "status",
        "permissions",
        "version",
        "skills",
        "batch",
        "cursor-overlay",
    ];
    let mut r: Vec<String> = Vec::new();
    let mut i: usize = 0;
    while i < list.len()
        invariant
            i <= list.len(),
            names(r@) == list@.take(i as int).map_values(|s: &str| s@),
        decreases list.len() - i,
    {
        r.push(crate::text::owned(list[i]));
        assert(list@.take(i + 1).map_values(|s: &str| s@) =~= list@.take(i as int).map_values(|s: &str| s@).push(list@[i as int]@));
        assert(names(r@) =~= names(r@.drop_last()).push(r@.last()@));
        i = i + 1;
    }
    assert(list@.take(i as int) =~= list@);
    assert(list@.map_values(|s: &str| s@) =~= cli_command_names());
    r
}

/// `command_for_tool`: the CLI command behind a tool name, if any.
pub fn command_for_tool(tool: &str) -> (r: Option<String>)
    ensures
        match command_of_tool(cli_command_names(), tool@) {
            Some(c) => r matches Some(x) && x@ == c,
            None => r is None,
        },
{
    let commands = cli_commands();
    command_for_tool_in(&commands, tool)
}

/// A list in ascending order, equal names kept together.
pub open spec fn ascending(s: Seq<Seq<char>>) -> bool {
    forall|i: int, j: int| 0 <= i < j < s.len() ==> !chars_lt(#[trigger] s[j], #[trigger] s[i])
}

/// The tool names of the callable commands, in command order.
pub open spec fn callable_tool_names(commands: Seq<Seq<char>>) -> Seq<Seq<char>>
    decreases commands.len(),
{
    if commands.len() == 0 {
        Seq::empty()
    } else if callable(commands.last()) {
        callable_tool_names(commands.drop_last()).push(tool_name_of(commands.last()))
    } else {
        callable_tool_names(commands.drop_last())
    }
}

proof fn lemma_insert_ascending(s: Seq<Seq<char>>, pos: int, x: Seq<char>)
    requires
        ascending(s),
        0 <= pos <= s.len(),
        forall|q: int| 0 <= q < pos ==> !chars_lt(x, #[trigger] s[q]),
        pos < s.len() ==> chars_lt(x, s[pos]),
    ensures
        ascending(s.insert(pos, x)),
{
    let n = s.insert(pos, x);
    assert forall|a: int, b: int| 0 <= a < b < n.len() implies !chars_lt(#[trigger] n[b], #[trigger] n[a]) by {
        if b < pos {
            assert(n[a] == s[a] && n[b] == s[b]);
        } else if b == pos {
            assert(n[a] == s[a]);
        } else {
            assert(n[b] == s[b - 1]);
            // x < s[pos] <= s[b - 1]
            if b - 1 > pos && s[pos] != s[b - 1] {
                lemma_chars_lt_total(s[pos], s[b - 1]);
                lemma_chars_lt_transitive(x, s[pos], s[b - 1]);
            }
            assert(chars_lt(x, s[b - 1]));
            if a < pos {
                assert(n[a] == s[a]);
                if chars_lt(n[b], n[a]) {
                    lemma_chars_lt_transitive(x, s[b - 1], s[a]);
                }
            } else if a == pos {
                lemma_chars_lt_asymmetric(x, s[b - 1]);
            } else {
                assert(n[a] == s[a - 1]);
            }
        }
    }
}

/// `tools`: the tool names of the callable commands, sorted by name (equal names keep
/// their command order).
pub fn tool_names(commands: &Vec<String>) -> (r: Vec<String>)
    ensures
        ascending(names(r@)),
        names(r@).to_multiset() == callable_tool_names(names(commands@)).to_multiset(),
{
    broadcast use vstd::seq_lib::group_to_multiset_ensures;

    let ghost all = names(commands@);
    let mut out: Vec<String> = Vec::new();
    let mut keys: Vec<Vec<char>> = Vec::new();
    let mut i: usize = 0;
    while i < commands.len()
        invariant
            i <= commands.len(),
            all == names(commands@),
            keys.len() == out.len(),
            forall|q: int| 0 <= q < keys.len() ==> (#[trigger] keys@[q])@ == out@[q]@,
            ascending(names(out@)),
            names(out@).to_multiset() == callable_tool_names(all.take(i as int)).to_multiset(),
        decreases commands.len() - i,
    {
        assert(all.take(i + 1).drop_last() =~= all.take(i as int));
        assert(all.take(i + 1).last() == commands@[i as int]@);
        let command = commands[i].as_str();
        if is_mcp_callable(command) {
            let name = tool_name_for_command(command);
            let key = to_chars(name.as_str());
            let ghost ns = names(out@);
            assert(callable_tool_names(all.take(i + 1)) == callable_tool_names(all.take(i as int)).push(name@));
            let mut pos: usize = 0;
            while pos < keys.len() && !chars_less(&key, &keys[pos])
                invariant
                    pos <= keys.len(),
                    keys.len() == out.len(),
                    ns == names(out@),
                    forall|q: int| 0 <= q < keys.len() ==> (#[trigger] keys@[q])@ == out@[q]@,
                    forall|q: int| 0 <= q < pos ==> !chars_lt(key@, #[trigger] ns[q]),
                decreases keys.len() - pos,
            {
                assert(ns[pos as int] == keys@[pos as int]@);
                pos = pos + 1;
            }
            proof {
                if pos < keys.len() {
                    assert(ns[pos as int] == keys@[pos as int]@);
                }
                lemma_insert_ascending(ns, pos as int, key@);
            }
            let ghost old_keys = keys@;
            let ghost old_out = out@;
            out.insert(pos, name);
            keys.insert(pos, key);
            proof {
                assert(names(out@) =~= ns.insert(pos as int, key@));
                vstd::seq_lib::to_multiset_insert(ns, pos as int, key@);
                vstd::seq_lib::to_multiset_build(callable_tool_names(all.take(i as int)), name@);
                assert forall|q: int| 0 <= q < keys.len() implies (#[trigger] keys@[q])@ == out@[q]@ by {
                    if q < pos {
                        assert(keys@[q] == old_keys[q] && out@[q] == old_out[q]);
                    } else if q > pos {
                        assert(keys@[q] == old_keys[q - 1] && out@[q] == old_out[q - 1]);
                    }
                }
            }
        } else {
            assert(callable_tool_names(all.take(i + 1)) == callable_tool_names(all.take(i as int)));
        }
        i = i + 1;
    }
    assert(all.take(i as int) =~= all);
    out
}

/// Tool names lead back to commands: every callable command's tool name finds a
/// command, and the command found for a tool is callable, carries that tool name, and
/// is one of the commands.
pub proof fn lemma_tool_names_round_trip(commands: Seq<Seq<char>>, i: int, tool: Seq<char>)
    requires
        0 <= i < commands.len(),
    ensures
        callable(commands[i]) ==> command_of_tool(commands, tool_name_of(commands[i])) is Some,
        command_of_tool(commands, tool) matches Some(c) ==> callable(c) && tool_name_of(c) == tool
            && commands.contains(c),
    decreases commands.len(),
{
    if i > 0 {
        lemma_tool_names_round_trip(commands.drop_first(), i - 1, tool);
        assert(commands.drop_first()[i - 1] == commands[i]);
    } else if commands.len() > 1 {
        lemma_tool_names_round_trip(commands.drop_first(), 0, tool);
    }
    let rest = commands.drop_first();
    if callable(commands[0]) && tool_name_of(commands[0]) == tool {
        assert(command_of_tool(commands, tool) == Some(commands[0]));
        assert(commands.contains(commands[0]));
    } else {
        assert(command_of_tool(commands, tool) == command_of_tool(rest, tool));
        if rest.len() == 0 {
            assert(command_of_tool(rest, tool) is None);
        } else {
            lemma_tool_names_round_trip(rest, 0, tool);
            if let Some(c) = command_of_tool(rest, tool) {
                let k = choose|k: int| 0 <= k < rest.len() && rest[k] == c;
                assert(commands[k + 1] == c);
            }
        }
    }
}

} // verus!
