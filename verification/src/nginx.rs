//! The nginx configuration of the bastion: the map from header value to tunnel.

use vstd::prelude::*;
use crate::common;
use crate::registry;
use crate::registry::Key;
use crate::text;

verus! {

/// What comes before the entries of the map.
pub const CONFIG_HEAD: &'static str = r#"map $http_x_ephemwork $ephemwork_upstream {
    default "";
"#;

/// What comes behind the entries of the map: unknown header values get a 404.
pub const CONFIG_TAIL: &'static str = r#"}

server {
    listen 80 default_server;
    listen [::]:80 default_server;
    location = /ephemwork-health { return 200 "ok\n"; }
    location / {
        if ($ephemwork_upstream = "") { return 404 "no ephemwork session for this header\n"; }
        proxy_pass http://$ephemwork_upstream;
        proxy_set_header Host $host;
    }
}
"#;

/// A character between double quotes: quotes and backslashes stand behind a
/// backslash.
pub open spec fn escaped(s: Seq<char>) -> Seq<char>
    decreases s.len(),
{
    if s.len() == 0 {
        seq![]
    } else if s.last() == '"' || s.last() == '\\' {
        escaped(s.drop_last()).push('\\').push(s.last())
    } else {
        escaped(s.drop_last()).push(s.last())
    }
}

/// The entry of a pair: its header value and where its tunnel ends.
pub open spec fn entry_line(entry: ((Seq<char>, Seq<char>), u16)) -> Seq<char> {
    "    \""@ + escaped(common::routing_value(entry.0.0, entry.0.1)) + "\" 127.0.0.1:"@
        + text::decimal(entry.1 as nat) + ";\n"@
}

/// The entries one after another.
pub open spec fn entry_lines(entries: Seq<((Seq<char>, Seq<char>), u16)>) -> Seq<char>
    decreases entries.len(),
{
    if entries.len() == 0 {
        seq![]
    } else {
        entry_lines(entries.drop_last()) + entry_line(entries.last())
    }
}

fn push_escaped(out: &mut String, s: &str)
    ensures
        final(out)@ == old(out)@ + escaped(s@),
{
    let cs = text::chars_of(s);
    let mut i: usize = 0;
    assert(out@ =~= out@ + escaped(cs@.take(0)));
    while i < cs.len()
        invariant
            i <= cs@.len(),
            cs@ == s@,
            out@ == old(out)@ + escaped(cs@.take(i as int)),
        decreases cs@.len() - i,
    {
        assert(cs@.take(i + 1).drop_last() =~= cs@.take(i as int));
        let c = cs[i];
        if c == '"' || c == '\\' {
            out.push('\\');
        }
        out.push(c);
        assert(out@ =~= old(out)@ + escaped(cs@.take(i + 1)));
        i = i + 1;
    }
    assert(cs@.take(i as int) =~= s@);
}

/// The configuration for a snapshot of the registry.
pub fn render_config(snapshot: &Vec<(Key, u16)>) -> (r: String)
    ensures
        r@ == CONFIG_HEAD@ + entry_lines(registry::snapshot_view(snapshot@)) + CONFIG_TAIL@,
{
    let ghost all = registry::snapshot_view(snapshot@);
    let mut out = CONFIG_HEAD.to_owned();
    let mut i: usize = 0;
    assert(out@ =~= CONFIG_HEAD@ + entry_lines(all.take(0)));
    while i < snapshot.len()
        invariant
            i <= snapshot@.len(),
            all == registry::snapshot_view(snapshot@),
            out@ == CONFIG_HEAD@ + entry_lines(all.take(i as int)),
        decreases snapshot@.len() - i,
    {
        let ghost before = out@;
        let key = &snapshot[i].0;
        assert(all.take(i + 1).drop_last() =~= all.take(i as int));
        assert(all.take(i + 1).last() == (key@, snapshot@[i as int].1));
        out.append("    \"");
        push_escaped(
            &mut out,
            common::routing_header_value(key.user.as_str(), key.service.as_str()).as_str(),
        );
        out.append("\" 127.0.0.1:");
        text::push_decimal(&mut out, snapshot[i].1 as u64);
        out.append(";\n");
        assert(out@ =~= before + entry_line(all[i as int]));
        assert(out@ =~= CONFIG_HEAD@ + entry_lines(all.take(i + 1)));
        i = i + 1;
    }
    assert(all.take(i as int) =~= all);
    out.append(CONFIG_TAIL);
    out
}

/// The text stands in the other at `at`.
pub open spec fn occurs_at(whole: Seq<char>, part: Seq<char>, at: int) -> bool {
    0 <= at && at + part.len() <= whole.len() && whole.subrange(at, at + part.len()) == part
}

/// Every pair of the snapshot has its entry in the configuration.
pub proof fn law_every_pair_is_routed(entries: Seq<((Seq<char>, Seq<char>), u16)>, i: int)
    requires
        0 <= i < entries.len(),
    ensures
        exists|at: int| #[trigger] occurs_at(entry_lines(entries), entry_line(entries[i]), at),
    decreases entries.len(),
{
    let rest = entries.drop_last();
    let head = entry_lines(rest);
    if i < rest.len() {
        law_every_pair_is_routed(rest, i);
        let at = choose|at: int| #[trigger] occurs_at(head, entry_line(rest[i]), at);
        let line = entry_line(entries[i]);
        assert(rest[i] == entries[i]);
        assert(entry_lines(entries).subrange(at, at + line.len()) =~= head.subrange(
            at,
            at + line.len(),
        ));
        assert(occurs_at(entry_lines(entries), line, at));
    } else {
        let line = entry_line(entries[i]);
        let at = head.len() as int;
        assert(entry_lines(entries).subrange(at, at + line.len()) =~= line);
        assert(occurs_at(entry_lines(entries), line, at));
    }
}

} // verus!
