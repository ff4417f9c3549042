//! What nginx reads in the configuration.

use vstd::prelude::*;
use crate::common;
use crate::nginx;
use crate::registry;
use crate::registry::Key;
use crate::text;

verus! {

/// A quoted string, from behind its opening quote: what it stands for, and what
/// comes behind its closing quote. A backslash before a quote or a backslash is
/// dropped, every other character stands for itself.
pub open spec fn read_quoted(s: Seq<char>) -> Option<(Seq<char>, Seq<char>)>
    decreases s.len(),
{
    if s.len() == 0 {
        None
    } else if s[0] == '"' {
        Some((seq![], s.skip(1)))
    } else if s[0] == '\\' && s.len() > 1 && (s[1] == '"' || s[1] == '\\') {
        match read_quoted(s.skip(2)) {
            Some((value, rest)) => Some((seq![s[1]] + value, rest)),
            None => None,
        }
    } else {
        match read_quoted(s.skip(1)) {
            Some((value, rest)) => Some((seq![s[0]] + value, rest)),
            None => None,
        }
    }
}

/// The text without the blanks and line ends that it begins with.
pub open spec fn unindented(s: Seq<char>) -> Seq<char>
    decreases s.len(),
{
    if s.len() > 0 && (s[0] == ' ' || s[0] == '\n') {
        unindented(s.skip(1))
    } else {
        s
    }
}

/// The text before the first such character, and what comes behind that.
pub open spec fn read_until(s: Seq<char>, end: char) -> Option<(Seq<char>, Seq<char>)>
    decreases s.len(),
{
    if s.len() == 0 {
        None
    } else if s[0] == end {
        Some((seq![], s.skip(1)))
    } else {
        match read_until(s.skip(1), end) {
            Some((before, rest)) => Some((seq![s[0]] + before, rest)),
            None => None,
        }
    }
}

/// An entry of the map: a quoted value, what it is mapped to, and a semicolon.
pub open spec fn read_entry(s: Seq<char>) -> Option<((Seq<char>, Seq<char>), Seq<char>)> {
    let t = unindented(s);
    if t.len() > 0 && t[0] == '"' {
        match read_quoted(t.skip(1)) {
            Some((value, rest)) => match read_until(unindented(rest), ';') {
                Some((target, rest)) => Some(((value, target), rest)),
                None => None,
            },
            None => None,
        }
    } else {
        None
    }
}

/// The entries of the map up to its closing brace.
pub open spec fn read_map(s: Seq<char>) -> Option<Seq<(Seq<char>, Seq<char>)>>
    decreases s.len(),
{
    let t = unindented(s);
    if t.len() > 0 && t[0] == '}' {
        Some(seq![])
    } else {
        match read_entry(s) {
            Some((entry, rest)) => if rest.len() < s.len() {
                match read_map(rest) {
                    Some(entries) => Some(seq![entry] + entries),
                    None => None,
                }
            } else {
                None
            },
            None => None,
        }
    }
}

/// What the map gives for a value.
pub open spec fn looked_up(map: Seq<(Seq<char>, Seq<char>)>, value: Seq<char>) -> Option<Seq<char>>
    decreases map.len(),
{
    if map.len() == 0 {
        None
    } else if map[0].0 == value {
        Some(map[0].1)
    } else {
        looked_up(map.skip(1), value)
    }
}

/// The end of the tunnel of a port.
pub open spec fn tunnel_end(port: u16) -> Seq<char> {
    "127.0.0.1:"@ + text::decimal(port as nat)
}

/// The header value of each pair with the end of its tunnel.
pub open spec fn routes(entries: Seq<((Seq<char>, Seq<char>), u16)>) -> Seq<
    (Seq<char>, Seq<char>),
> {
    Seq::new(
        entries.len(),
        |i: int|
            (common::routing_value(entries[i].0.0, entries[i].0.1), tunnel_end(entries[i].1)),
    )
}

proof fn lemma_escaped_front(s: Seq<char>)
    requires
        s.len() > 0,
    ensures
        nginx::escaped(s) == nginx::escaped(seq![s[0]]) + nginx::escaped(s.skip(1)),
        nginx::escaped(seq![s[0]]) == (if s[0] == '"' || s[0] == '\\' {
            seq!['\\', s[0]]
        } else {
            seq![s[0]]
        }),
    decreases s.len(),
{
    let first = seq![s[0]];
    assert(first.drop_last() =~= seq![]);
    assert(nginx::escaped(first.drop_last()) =~= seq![]);
    assert(nginx::escaped(first) =~= (if s[0] == '"' || s[0] == '\\' {
        seq!['\\', s[0]]
    } else {
        seq![s[0]]
    }));
    if s.len() == 1 {
        assert(s.skip(1) =~= seq![]);
        assert(s =~= first);
        assert(nginx::escaped(s.skip(1)) =~= seq![]);
        assert(nginx::escaped(s) =~= nginx::escaped(first) + nginx::escaped(s.skip(1)));
    } else {
        lemma_escaped_front(s.drop_last());
        assert(s.drop_last().skip(1) =~= s.skip(1).drop_last());
        assert(nginx::escaped(s) =~= nginx::escaped(first) + nginx::escaped(s.skip(1)));
    }
}

/// The quoted value of an entry, read the way nginx does, is the header value that it
/// was written for, and nothing of what follows is taken for a part of it.
pub proof fn law_quoted_value_is_read_back(value: Seq<char>, rest: Seq<char>)
    ensures
        read_quoted(nginx::escaped(value) + seq!['"'] + rest) == Some((value, rest)),
    decreases value.len(),
{
    let whole = nginx::escaped(value) + seq!['"'] + rest;
    if value.len() == 0 {
        assert(whole =~= seq!['"'] + rest);
        assert(whole.skip(1) =~= rest);
        assert(value =~= seq![]);
    } else {
        lemma_escaped_front(value);
        let tail = nginx::escaped(value.skip(1)) + seq!['"'] + rest;
        law_quoted_value_is_read_back(value.skip(1), rest);
        assert(value =~= seq![value[0]] + value.skip(1));
        if value[0] == '"' || value[0] == '\\' {
            assert(whole =~= seq!['\\', value[0]] + tail);
            assert(whole.skip(2) =~= tail);
        } else {
            assert(whole =~= seq![value[0]] + tail);
            assert(whole.skip(1) =~= tail);
        }
    }
}

proof fn lemma_read_until(s: Seq<char>, end: char, rest: Seq<char>)
    requires
        !s.contains(end),
    ensures
        read_until(s + seq![end] + rest, end) == Some((s, rest)),
    decreases s.len(),
{
    let whole = s + seq![end] + rest;
    if s.len() == 0 {
        assert(whole.skip(1) =~= rest);
        assert(s =~= seq![]);
    } else {
        assert forall|i: int| 0 <= i < s.skip(1).len() implies s.skip(1)[i] != end by {
            assert(s.contains(s[i + 1]));
        }
        assert(s.contains(s[0]));
        lemma_read_until(s.skip(1), end, rest);
        assert(whole.skip(1) =~= s.skip(1) + seq![end] + rest);
        assert(s =~= seq![s[0]] + s.skip(1));
    }
}

/// A line of the map reads as its pair's header value and the end of its tunnel.
proof fn lemma_line(entry: ((Seq<char>, Seq<char>), u16), rest: Seq<char>)
    ensures
        read_entry(nginx::entry_line(entry) + rest) == Some(
            (
                (common::routing_value(entry.0.0, entry.0.1), tunnel_end(entry.1)),
                seq!['\n'] + rest,
            ),
        ),
        unindented(nginx::entry_line(entry) + rest).len() > 0,
        unindented(nginx::entry_line(entry) + rest)[0] == '"',
        nginx::entry_line(entry).len() > 1,
{
    let value = common::routing_value(entry.0.0, entry.0.1);
    let target = tunnel_end(entry.1);
    let whole = nginx::entry_line(entry) + rest;
    let last = seq!['\n'] + rest;
    reveal_strlit("    \"");
    reveal_strlit("\" 127.0.0.1:");
    reveal_strlit("127.0.0.1:");
    reveal_strlit(";\n");
    let after = seq![' '] + target + seq![';'] + last;
    let quoted = nginx::escaped(value) + seq!['"'] + after;
    assert(whole =~= seq![' ', ' ', ' ', ' ', '"'] + quoted);
    assert(unindented(whole) == seq!['"'] + quoted) by {
        reveal_with_fuel(unindented, 5);
        assert(whole.skip(1).skip(1).skip(1).skip(1) =~= seq!['"'] + quoted);
    }
    assert((seq!['"'] + quoted).skip(1) =~= quoted);
    law_quoted_value_is_read_back(value, after);
    assert(unindented(after) == target + seq![';'] + last) by {
        reveal_with_fuel(unindented, 2);
        assert(after.skip(1) =~= target + seq![';'] + last);
        assert(target[0] == '1');
    }
    text::lemma_decimal(entry.1 as nat);
    assert(!target.contains(';')) by {
        let d = text::decimal(entry.1 as nat);
        assert forall|i: int| 0 <= i < target.len() implies target[i] != ';' by {
            if i >= 10 {
                assert(target[i] == d[i - 10]);
            }
        }
    }
    lemma_read_until(target, ';', last);
}

proof fn lemma_lines_front(entries: Seq<((Seq<char>, Seq<char>), u16)>)
    requires
        entries.len() > 0,
    ensures
        nginx::entry_lines(entries) == nginx::entry_line(entries[0]) + nginx::entry_lines(
            entries.skip(1),
        ),
    decreases entries.len(),
{
    if entries.len() == 1 {
        assert(entries.drop_last() =~= seq![]);
        assert(entries.skip(1) =~= seq![]);
        assert(nginx::entry_lines(entries) =~= nginx::entry_line(entries[0])
            + nginx::entry_lines(entries.skip(1)));
    } else {
        lemma_lines_front(entries.drop_last());
        assert(entries.drop_last().skip(1) =~= entries.skip(1).drop_last());
        assert(nginx::entry_lines(entries) =~= nginx::entry_line(entries[0])
            + nginx::entry_lines(entries.skip(1)));
    }
}

proof fn lemma_map(entries: Seq<((Seq<char>, Seq<char>), u16)>, tail: Seq<char>)
    requires
        tail.len() > 0,
        tail[0] == '}',
    ensures
        read_map(nginx::entry_lines(entries) + tail) == Some(routes(entries)),
        read_map(seq!['\n'] + (nginx::entry_lines(entries) + tail)) == Some(routes(entries)),
    decreases entries.len(),
{
    let whole = nginx::entry_lines(entries) + tail;
    let broken = seq!['\n'] + whole;
    assert(broken.skip(1) =~= whole);
    assert(unindented(broken) == unindented(whole)) by {
        reveal_with_fuel(unindented, 2);
    }
    if entries.len() == 0 {
        assert(whole =~= tail);
        assert(unindented(tail) == tail);
        assert(routes(entries) =~= seq![]);
    } else {
        let rest = nginx::entry_lines(entries.skip(1)) + tail;
        lemma_lines_front(entries);
        lemma_map(entries.skip(1), tail);
        assert(whole =~= nginx::entry_line(entries[0]) + rest);
        lemma_line(entries[0], rest);
        let next = seq!['\n'] + rest;
        assert(next.len() < whole.len());
        assert(seq![routes(entries)[0]] + routes(entries.skip(1)) =~= routes(entries));
        assert(read_entry(broken) == read_entry(whole));
    }
}

/// nginx reads in the map of the configuration the header value of every pair of the
/// snapshot with the end of its tunnel, in their order, and nothing else.
pub proof fn law_map_is_read_back(entries: Seq<((Seq<char>, Seq<char>), u16)>)
    ensures
        read_map(nginx::entry_lines(entries) + nginx::CONFIG_TAIL@) == Some(routes(entries)),
{
    assert(nginx::CONFIG_TAIL@.len() > 0 && nginx::CONFIG_TAIL@[0] == '}') by {
        reveal_strlit(
            r#"}

server {
    listen 80 default_server;
    listen [::]:80 default_server;
    location = /ephemwork-health { return 200 "ok\n"; }
    location / {
        if ($ephemwork_upstream = "") { return 404 "no ephemwork session for this header\n"; }
        proxy_pass http://$ephemwork_upstream;
        proxy_set_header Host $host;
    }
}
"#,
        );
    }
    lemma_map(entries, nginx::CONFIG_TAIL@);
}

proof fn lemma_looked_up(map: Seq<(Seq<char>, Seq<char>)>, value: Seq<char>)
    ensures
        match looked_up(map, value) {
            Some(target) => exists|i: int| 0 <= i < map.len() && #[trigger] map[i] == (value, target),
            None => forall|i: int| 0 <= i < map.len() ==> (#[trigger] map[i]).0 != value,
        },
    decreases map.len(),
{
    if map.len() > 0 {
        let rest = map.skip(1);
        lemma_looked_up(rest, value);
        if map[0].0 == value {
            assert(map[0] == (value, map[0].1));
        } else {
            match looked_up(rest, value) {
                Some(target) => {
                    let i = choose|i: int|
                        0 <= i < rest.len() && #[trigger] rest[i] == (value, target);
                    assert(map[i + 1] == (value, target));
                },
                None => {
                    assert forall|i: int| 0 <= i < map.len() implies (#[trigger] map[i]).0
                        != value by {
                        if i > 0 {
                            assert(map[i] == rest[i - 1]);
                        }
                    }
                },
            }
        }
    }
}

/// A header value is routed to the tunnel of a pair that has it, at that pair's port
/// and at no other's; one that no pair has is routed nowhere.
pub proof fn law_header_value_finds_its_tunnel(
    entries: Seq<((Seq<char>, Seq<char>), u16)>,
    value: Seq<char>,
)
    ensures
        read_map(nginx::entry_lines(entries) + nginx::CONFIG_TAIL@) matches Some(map)
            && match looked_up(map, value) {
            Some(target) => exists|i: int|
                {
                    &&& 0 <= i < entries.len()
                    &&& common::routing_value((#[trigger] entries[i]).0.0, entries[i].0.1) == value
                    &&& target.take(10) == "127.0.0.1:"@
                    &&& text::number(target.skip(10), 65535) == Some(entries[i].1 as nat)
                },
            None => forall|i: int|
                0 <= i < entries.len() ==> common::routing_value(
                    (#[trigger] entries[i]).0.0,
                    entries[i].0.1,
                ) != value,
        },
{
    law_map_is_read_back(entries);
    let map = routes(entries);
    lemma_looked_up(map, value);
    match looked_up(map, value) {
        Some(target) => {
            let i = choose|i: int| 0 <= i < map.len() && #[trigger] map[i] == (value, target);
            let port = entries[i].1;
            reveal_strlit("127.0.0.1:");
            assert(target == tunnel_end(port));
            assert(target.take(10) =~= "127.0.0.1:"@);
            assert(target.skip(10) =~= text::decimal(port as nat));
            text::law_number_of_decimal(port as nat, 65535);
        },
        None => {
            assert forall|i: int| 0 <= i < entries.len() implies common::routing_value(
                (#[trigger] entries[i]).0.0,
                entries[i].0.1,
            ) != value by {
                assert(map[i].0 != value);
            }
        },
    }
}

/// nginx's variable for a request header: in lower case, with underscores for dashes.
pub open spec fn header_variable(name: Seq<char>) -> Seq<char> {
    "$http_"@ + Seq::new(
        name.len(),
        |i: int|
            if 'A' <= name[i] && name[i] <= 'Z' {
                ((name[i] as u32 + 32) as u32) as char
            } else if name[i] == '-' {
                '_'
            } else {
                name[i]
            },
    )
}

/// The configuration that is rendered maps the variable of the routing header, by the
/// header values of the snapshot's pairs, to the ends of their tunnels, and any other
/// value to nothing.
pub proof fn law_config_maps_the_routing_header(snapshot: Vec<(Key, u16)>, r: String)
    requires
        call_ensures(nginx::render_config, (&snapshot,), r),
    ensures
        ({
            let head = "map "@ + header_variable(common::ROUTING_HEADER@)
                + " $ephemwork_upstream {\n    default \"\";\n"@;
            &&& head.is_prefix_of(r@)
            &&& read_map(r@.skip(head.len() as int)) == Some(
                routes(registry::snapshot_view(snapshot@)),
            )
        }),
{
    let head = "map "@ + header_variable(common::ROUTING_HEADER@)
        + " $ephemwork_upstream {\n    default \"\";\n"@;
    let entries = registry::snapshot_view(snapshot@);
    assert(head == nginx::CONFIG_HEAD@) by {
        reveal_strlit("map ");
        reveal_strlit("$http_");
        reveal_strlit("X-Ephemwork");
        reveal_strlit(" $ephemwork_upstream {\n    default \"\";\n");
        reveal_strlit(
            r#"map $http_x_ephemwork $ephemwork_upstream {
    default "";
"#,
        );
        assert(head =~= nginx::CONFIG_HEAD@);
    }
    law_map_is_read_back(entries);
    assert(r@ =~= head + (nginx::entry_lines(entries) + nginx::CONFIG_TAIL@));
    assert(r@.skip(head.len() as int) =~= nginx::entry_lines(entries) + nginx::CONFIG_TAIL@);
}

/// A request that carries the header value of a pair is routed to that pair's port, where no
/// other pair of the snapshot has the same value.
pub proof fn law_pair_finds_its_own_port(
    snapshot: Vec<(Key, u16)>,
    config: String,
    i: int,
    value: String,
)
    requires
        call_ensures(nginx::render_config, (&snapshot,), config),
        0 <= i < snapshot@.len(),
        value@ == common::routing_value(snapshot@[i].0.user@, snapshot@[i].0.service@),
        forall|j: int|
            0 <= j < snapshot@.len() && j != i ==> common::routing_value(
                (#[trigger] snapshot@[j]).0.user@,
                snapshot@[j].0.service@,
            ) != value@,
    ensures
        ({
            let head = "map "@ + header_variable(common::ROUTING_HEADER@)
                + " $ephemwork_upstream {\n    default \"\";\n"@;
            &&& head.is_prefix_of(config@)
            &&& read_map(config@.skip(head.len() as int)) matches Some(map) && looked_up(
                map,
                value@,
            ) == Some("127.0.0.1:"@ + text::decimal(snapshot@[i].1 as nat))
        }),
{
    let entries = registry::snapshot_view(snapshot@);
    assert(entries[i] == (snapshot@[i].0@, snapshot@[i].1));
    law_config_maps_the_routing_header(snapshot, config);
    let map = routes(entries);
    lemma_looked_up(map, value@);
    assert(map[i] == (value@, tunnel_end(snapshot@[i].1)));
    match looked_up(map, value@) {
        Some(target) => {
            let j = choose|j: int| 0 <= j < map.len() && #[trigger] map[j] == (value@, target);
            assert(entries[j] == (snapshot@[j].0@, snapshot@[j].1));
            if j != i {
                assert(common::routing_value(snapshot@[j].0.user@, snapshot@[j].0.service@)
                    != value@);
            }
        },
        None => {},
    }
}

} // verus!
