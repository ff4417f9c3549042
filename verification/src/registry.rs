//! Port registry for active developer tunnels: which (user, service) pair has
//! which port of the bastion.

use vstd::prelude::*;
use crate::common;
use crate::files;
use crate::files::{FileRead, Intake, LoadError};
use crate::text;

verus! {

/// First port of the default range.
pub const DEFAULT_PORT_START: u16 = 10_000;

/// Last port of the default range.
pub const DEFAULT_PORT_END: u16 = 19_999;

#[derive(Debug, Clone, Copy, PartialEq, Eq)]
pub struct PortRange {
    pub start: u16,
    pub end: u16,
}

impl PortRange {
    /// Both ends belong to the range.
    pub open spec fn has(self, port: int) -> bool {
        self.start <= port <= self.end
    }

    pub fn contains(&self, port: u16) -> (r: bool)
        ensures
            r == self.has(port as int),
    {
        port >= self.start && port <= self.end
    }
}

/// Default port range allocated to developer tunnels. Chosen so it doesn't
/// collide with the control-plane port (8443) or with anything privileged.
pub fn default_port_range() -> (r: PortRange)
    ensures
        r.start == DEFAULT_PORT_START,
        r.end == DEFAULT_PORT_END,
{
    PortRange { start: DEFAULT_PORT_START, end: DEFAULT_PORT_END }
}

/// (user, service) pair keyed in the registry.
#[derive(Debug, Clone, PartialEq, Eq, PartialOrd, Ord, Hash)]
pub struct Key {
    pub user: String,
    pub service: String,
}

impl View for Key {
    type V = (Seq<char>, Seq<char>);

    open spec fn view(&self) -> (Seq<char>, Seq<char>) {
        (self.user@, self.service@)
    }
}

impl Key {
    pub fn new(user: &str, service: &str) -> (r: Self)
        ensures
            r@ == (user@, service@),
    {
        Self { user: user.to_owned(), service: service.to_owned() }
    }
}

/// A character of a string that is to have no slash: a slash as `\s` and, to tell
/// the two apart, a backslash as `\\`.
pub open spec fn marked_char(c: char) -> Seq<char> {
    if c == '/' {
        seq!['\\', 's']
    } else if c == '\\' {
        seq!['\\', '\\']
    } else {
        seq![c]
    }
}

/// The characters one after another, each by [`marked_char`].
pub open spec fn marked(s: Seq<char>) -> Seq<char>
    decreases s.len(),
{
    if s.len() == 0 {
        seq![]
    } else {
        marked(s.drop_last()) + marked_char(s.last())
    }
}

/// What [`marked`] makes this of; none where a backslash is followed by anything
/// but a backslash or an `s`.
pub open spec fn unmarked(s: Seq<char>) -> Option<Seq<char>>
    decreases s.len(),
{
    if s.len() == 0 {
        Some(seq![])
    } else if s[0] != '\\' {
        match unmarked(s.drop_first()) {
            Some(rest) => Some(seq![s[0]] + rest),
            None => None,
        }
    } else if s.len() >= 2 && (s[1] == 's' || s[1] == '\\') {
        match unmarked(s.skip(2)) {
            Some(rest) => Some(
                seq![
                    if s[1] == 's' {
                        '/'
                    } else {
                        '\\'
                    },
                ] + rest,
            ),
            None => None,
        }
    } else {
        None
    }
}

/// The one string that a pair is filed under: `user/service`. A user that holds a
/// slash itself would be taken for another pair there, so such a pair is filed
/// under a string without any slash.
pub open spec fn composite(key: (Seq<char>, Seq<char>)) -> Seq<char> {
    if key.0.contains('/') {
        marked(marked(key.0).push('/') + key.1)
    } else {
        key.0.push('/') + key.1
    }
}

/// The pair that a string files: the two sides of its first slash or, without a
/// slash, the pair whose user holds one.
pub open spec fn pair_of(composite: Seq<char>) -> Option<(Seq<char>, Seq<char>)> {
    match text::split_first(composite, '/') {
        Some(pair) => Some(pair),
        None => match unmarked(composite) {
            Some(inner) => match text::split_first(inner, '/') {
                Some((front, service)) => match unmarked(front) {
                    Some(user) => if user.contains('/') {
                        Some((user, service))
                    } else {
                        None
                    },
                    None => None,
                },
                None => None,
            },
            None => None,
        },
    }
}

/// What a list of entries maps to what, a later entry of the same name
/// replacing an earlier one.
pub open spec fn contents(entries: Seq<(String, u16)>) -> Map<Seq<char>, u16>
    decreases entries.len(),
{
    if entries.len() == 0 {
        Map::empty()
    } else {
        contents(entries.drop_last()).insert(entries.last().0@, entries.last().1)
    }
}

/// The names ascend, so none occurs twice.
pub open spec fn ascending(entries: Seq<(String, u16)>) -> bool {
    forall|i: int, j: int|
        0 <= i < j < entries.len() ==> text::precedes(
            (#[trigger] entries[i]).0@,
            (#[trigger] entries[j]).0@,
        )
}

/// Some entry has this port.
pub open spec fn taken(ports: Map<Seq<char>, u16>, port: int) -> bool {
    exists|k: Seq<char>| #[trigger] ports.dom().contains(k) && ports[k] == port
}

/// The lowest port of the range that no entry has.
pub open spec fn lowest_free(range: PortRange, ports: Map<Seq<char>, u16>, port: int) -> bool {
    &&& range.has(port)
    &&& !taken(ports, port)
    &&& forall|p: int| range.start <= p < port ==> #[trigger] taken(ports, p)
}

/// Every port of the range is taken.
pub open spec fn exhausted(range: PortRange, ports: Map<Seq<char>, u16>) -> bool {
    forall|p: int| range.has(p) ==> #[trigger] taken(ports, p)
}

/// Why no port could be given.
#[derive(Debug, Clone, Copy, PartialEq, Eq)]
pub struct RangeExhausted {
    pub range: PortRange,
    pub active: usize,
}

impl RangeExhausted {
    pub open spec fn text(self) -> Seq<char> {
        "port range "@ + text::decimal(self.range.start as nat) + "..="@ + text::decimal(
            self.range.end as nat,
        ) + " exhausted ("@ + text::decimal(self.active as nat) + " active sessions)"@
    }

    /// The error in words.
    pub fn message(&self) -> (r: String)
        ensures
            r@ == self.text(),
    {
        let mut out = "port range ".to_owned();
        text::push_decimal(&mut out, self.range.start as u64);
        out.append("..=");
        text::push_decimal(&mut out, self.range.end as u64);
        out.append(" exhausted (");
        text::push_decimal(&mut out, self.active as u64);
        out.append(" active sessions)");
        out
    }
}

/// One registration: what it answers and what it leaves.
///
/// A name that has a port keeps it, and nothing changes. Otherwise it gets the
/// lowest free port, or, where none is free, an error and nothing changes.
pub open spec fn registration(
    range: PortRange,
    before: Map<Seq<char>, u16>,
    name: Seq<char>,
    answer: Result<u16, RangeExhausted>,
    after: Map<Seq<char>, u16>,
) -> bool {
    if before.dom().contains(name) {
        answer == Ok::<u16, RangeExhausted>(before[name]) && after == before
    } else {
        match answer {
            Ok(port) => lowest_free(range, before, port as int) && after == before.insert(
                name,
                port,
            ),
            Err(e) => exhausted(range, before) && after == before && e.range == range && e.active
                == before.dom().len(),
        }
    }
}

/// The entries of `ports` in ascending order of their names.
pub open spec fn listing(ports: Map<Seq<char>, u16>, list: Seq<(Seq<char>, u16)>) -> bool {
    &&& forall|i: int, j: int|
        0 <= i < j < list.len() ==> text::precedes((#[trigger] list[i]).0, (#[trigger] list[j]).0)
    &&& forall|i: int|
        0 <= i < list.len() ==> ports.dom().contains((#[trigger] list[i]).0) && ports[list[i].0]
            == list[i].1
    &&& forall|k: Seq<char>| #[trigger]
        ports.dom().contains(k) ==> exists|i: int| 0 <= i < list.len() && (#[trigger] list[i]).0 == k
}

/// The entries as names and ports.
pub open spec fn named(entries: Seq<(String, u16)>) -> Seq<(Seq<char>, u16)> {
    entries.map_values(|e: (String, u16)| (e.0@, e.1))
}

/// The entries whose names file a pair, as pairs and ports.
pub open spec fn as_pairs(list: Seq<(Seq<char>, u16)>) -> Seq<((Seq<char>, Seq<char>), u16)>
    decreases list.len(),
{
    if list.len() == 0 {
        seq![]
    } else {
        let rest = as_pairs(list.drop_last());
        match pair_of(list.last().0) {
            Some(pair) => rest.push((pair, list.last().1)),
            None => rest,
        }
    }
}

/// What a snapshot holds.
pub open spec fn snapshot_view(v: Seq<(Key, u16)>) -> Seq<((Seq<char>, Seq<char>), u16)> {
    v.map_values(|e: (Key, u16)| (e.0@, e.1))
}

/// A name is in the contents exactly when an entry has it.
proof fn lemma_contents_dom(e: Seq<(String, u16)>, k: Seq<char>)
    ensures
        contents(e).dom().contains(k) <==> exists|i: int|
            0 <= i < e.len() && (#[trigger] e[i]).0@ == k,
    decreases e.len(),
{
    if e.len() > 0 {
        let d = e.drop_last();
        lemma_contents_dom(d, k);
        if contents(e).dom().contains(k) {
            if e.last().0@ == k {
                assert(e[e.len() - 1].0@ == k);
            } else {
                let i = choose|i: int| 0 <= i < d.len() && (#[trigger] d[i]).0@ == k;
                assert(e[i].0@ == k);
            }
        }
        if exists|i: int| 0 <= i < e.len() && (#[trigger] e[i]).0@ == k {
            let i = choose|i: int| 0 <= i < e.len() && (#[trigger] e[i]).0@ == k;
            if i < d.len() {
                assert(d[i].0@ == k);
            }
        }
    }
}

proof fn lemma_contents_all_names(e: Seq<(String, u16)>)
    ensures
        forall|i: int| 0 <= i < e.len() ==> contents(e).dom().contains((#[trigger] e[i]).0@),
{
    assert forall|i: int| 0 <= i < e.len() implies contents(e).dom().contains(
        (#[trigger] e[i]).0@,
    ) by {
        lemma_contents_dom(e, e[i].0@);
    }
}

/// With no name twice, each entry is what the contents say of its name.
proof fn lemma_contents_value(e: Seq<(String, u16)>, i: int)
    requires
        0 <= i < e.len(),
        forall|a: int, b: int|
            0 <= a < b < e.len() ==> (#[trigger] e[a]).0@ != (#[trigger] e[b]).0@,
    ensures
        contents(e).dom().contains(e[i].0@),
        contents(e)[e[i].0@] == e[i].1,
    decreases e.len(),
{
    let d = e.drop_last();
    if i < d.len() {
        assert forall|a: int, b: int| 0 <= a < b < d.len() implies (#[trigger] d[a]).0@
            != (#[trigger] d[b]).0@ by {
            assert(e[a].0@ != e[b].0@);
        }
        lemma_contents_value(d, i);
        assert(e[i].0@ != e[e.len() - 1].0@);
    }
}

/// With no name twice, there are as many names as entries.
proof fn lemma_contents_len(e: Seq<(String, u16)>)
    requires
        forall|a: int, b: int|
            0 <= a < b < e.len() ==> (#[trigger] e[a]).0@ != (#[trigger] e[b]).0@,
    ensures
        contents(e).dom().finite(),
        contents(e).dom().len() == e.len(),
    decreases e.len(),
{
    if e.len() > 0 {
        let d = e.drop_last();
        assert forall|a: int, b: int| 0 <= a < b < d.len() implies (#[trigger] d[a]).0@
            != (#[trigger] d[b]).0@ by {
            assert(e[a].0@ != e[b].0@);
        }
        lemma_contents_len(d);
        lemma_contents_dom(d, e.last().0@);
        if contents(d).dom().contains(e.last().0@) {
            let i = choose|i: int| 0 <= i < d.len() && (#[trigger] d[i]).0@ == e.last().0@;
            assert(e[i].0@ != e[e.len() - 1].0@);
        }
    }
}

/// Ascending names are different names.
proof fn lemma_ascending_distinct(e: Seq<(String, u16)>)
    requires
        ascending(e),
    ensures
        forall|a: int, b: int|
            0 <= a < b < e.len() ==> (#[trigger] e[a]).0@ != (#[trigger] e[b]).0@,
{
    assert forall|a: int, b: int| 0 <= a < b < e.len() implies (#[trigger] e[a]).0@
        != (#[trigger] e[b]).0@ by {
        text::law_precedes_irreflexive(e[a].0@);
    }
}

/// The entries are a listing of their contents.
proof fn lemma_listing(e: Seq<(String, u16)>)
    requires
        ascending(e),
    ensures
        listing(contents(e), named(e)),
{
    let m = contents(e);
    let l = named(e);
    lemma_ascending_distinct(e);
    assert forall|i: int, j: int| 0 <= i < j < l.len() implies text::precedes(
        (#[trigger] l[i]).0,
        (#[trigger] l[j]).0,
    ) by {
        assert(text::precedes(e[i].0@, e[j].0@));
    }
    assert forall|i: int| 0 <= i < l.len() implies m.dom().contains((#[trigger] l[i]).0)
        && m[l[i].0] == l[i].1 by {
        lemma_contents_value(e, i);
    }
    assert forall|k: Seq<char>| #[trigger] m.dom().contains(k) implies exists|i: int|
        0 <= i < l.len() && (#[trigger] l[i]).0 == k by {
        lemma_contents_dom(e, k);
        let i = choose|i: int| 0 <= i < e.len() && (#[trigger] e[i]).0@ == k;
        assert(l[i].0 == k);
    }
}

/// `at` is where `name` stands among the entries, or would.
spec fn slot_of(e: Seq<(String, u16)>, name: Seq<char>, at: int, found: bool) -> bool {
    &&& 0 <= at <= e.len()
    &&& found ==> at < e.len() && e[at].0@ == name
    &&& forall|j: int| 0 <= j < at ==> text::precedes((#[trigger] e[j]).0@, name)
    &&& forall|j: int|
        at <= j < e.len() ==> (text::precedes(name, (#[trigger] e[j]).0@) || (found && j == at))
}

proof fn lemma_slot_found(e: Seq<(String, u16)>, name: Seq<char>, at: int, found: bool)
    requires
        slot_of(e, name, at, found),
    ensures
        found == contents(e).dom().contains(name),
{
    lemma_contents_dom(e, name);
    text::law_precedes_irreflexive(name);
    if found {
        assert(e[at].0@ == name);
    } else if contents(e).dom().contains(name) {
        let i = choose|i: int| 0 <= i < e.len() && (#[trigger] e[i]).0@ == name;
        if i < at {
            assert(text::precedes(e[i].0@, name));
        } else {
            assert(text::precedes(name, e[i].0@));
        }
    }
}

/// Two entry lists say the same when they are listings of the same.
proof fn lemma_contents_from_listing(e: Seq<(String, u16)>, m: Map<Seq<char>, u16>)
    requires
        ascending(e),
        forall|i: int|
            0 <= i < e.len() ==> m.dom().contains((#[trigger] e[i]).0@) && m[e[i].0@] == e[i].1,
        forall|k: Seq<char>| #[trigger]
            m.dom().contains(k) ==> exists|i: int| 0 <= i < e.len() && (#[trigger] e[i]).0@ == k,
    ensures
        contents(e) == m,
{
    lemma_ascending_distinct(e);
    assert forall|k: Seq<char>| contents(e).dom().contains(k) <==> m.dom().contains(k) by {
        lemma_contents_dom(e, k);
    }
    assert(contents(e).dom() =~= m.dom());
    assert forall|k: Seq<char>| contents(e).dom().contains(k) implies contents(e)[k] == m[k] by {
        lemma_contents_dom(e, k);
        let i = choose|i: int| 0 <= i < e.len() && (#[trigger] e[i]).0@ == k;
        lemma_contents_value(e, i);
    }
    assert(contents(e) =~= m);
}

proof fn lemma_insert(e: Seq<(String, u16)>, at: int, entry: (String, u16))
    requires
        ascending(e),
        slot_of(e, entry.0@, at, false),
    ensures
        ascending(e.insert(at, entry)),
        contents(e.insert(at, entry)) == contents(e).insert(entry.0@, entry.1),
{
    let n = e.insert(at, entry);
    let m = contents(e).insert(entry.0@, entry.1);
    lemma_ascending_distinct(e);
    lemma_slot_found(e, entry.0@, at, false);
    assert forall|i: int, j: int| 0 <= i < j < n.len() implies text::precedes(
        (#[trigger] n[i]).0@,
        (#[trigger] n[j]).0@,
    ) by {
        let a = if i < at { i } else { i - 1 };
        let b = if j < at { j } else { j - 1 };
        if i == at {
            assert(n[j] == e[b]);
        } else if j == at {
            assert(n[i] == e[a]);
        } else {
            assert(n[i] == e[a] && n[j] == e[b]);
            assert(text::precedes(e[a].0@, e[b].0@));
        }
    }
    assert forall|i: int| 0 <= i < n.len() implies m.dom().contains((#[trigger] n[i]).0@)
        && m[n[i].0@] == n[i].1 by {
        if i != at {
            let a = if i < at { i } else { i - 1 };
            assert(n[i] == e[a]);
            lemma_contents_value(e, a);
        }
    }
    assert forall|k: Seq<char>| #[trigger] m.dom().contains(k) implies exists|i: int|
        0 <= i < n.len() && (#[trigger] n[i]).0@ == k by {
        if k == entry.0@ {
            assert(n[at].0@ == k);
        } else {
            lemma_contents_dom(e, k);
            let i = choose|i: int| 0 <= i < e.len() && (#[trigger] e[i]).0@ == k;
            let a = if i < at { i } else { i + 1 };
            assert(n[a] == e[i]);
        }
    }
    lemma_contents_from_listing(n, m);
}

proof fn lemma_remove(e: Seq<(String, u16)>, at: int)
    requires
        ascending(e),
        0 <= at < e.len(),
    ensures
        ascending(e.remove(at)),
        contents(e.remove(at)) == contents(e).remove(e[at].0@),
{
    let n = e.remove(at);
    let m = contents(e).remove(e[at].0@);
    lemma_ascending_distinct(e);
    assert forall|i: int, j: int| 0 <= i < j < n.len() implies text::precedes(
        (#[trigger] n[i]).0@,
        (#[trigger] n[j]).0@,
    ) by {
        let a = if i < at { i } else { i + 1 };
        let b = if j < at { j } else { j + 1 };
        assert(n[i] == e[a] && n[j] == e[b]);
    }
    assert forall|i: int| 0 <= i < n.len() implies m.dom().contains((#[trigger] n[i]).0@)
        && m[n[i].0@] == n[i].1 by {
        let a = if i < at { i } else { i + 1 };
        assert(n[i] == e[a]);
        lemma_contents_value(e, a);
        if a < at {
            assert(e[a].0@ != e[at].0@);
        } else {
            assert(e[at].0@ != e[a].0@);
        }
    }
    assert forall|k: Seq<char>| #[trigger] m.dom().contains(k) implies exists|i: int|
        0 <= i < n.len() && (#[trigger] n[i]).0@ == k by {
        lemma_contents_dom(e, k);
        let i = choose|i: int| 0 <= i < e.len() && (#[trigger] e[i]).0@ == k;
        let a = if i < at { i } else { i - 1 };
        assert(n[a] == e[i]);
    }
    lemma_contents_from_listing(n, m);
}

/// Where `name` stands among the entries, and whether it does.
fn slot(entries: &Vec<(String, u16)>, name: &str) -> (r: (usize, bool))
    requires
        ascending(entries@),
    ensures
        slot_of(entries@, name@, r.0 as int, r.1),
        r.1 == contents(entries@).dom().contains(name@),
{
    let mut i: usize = 0;
    while i < entries.len() && text::before(entries[i].0.as_str(), name)
        invariant
            i <= entries@.len(),
            forall|j: int| 0 <= j < i ==> text::precedes((#[trigger] entries@[j]).0@, name@),
        decreases entries@.len() - i,
    {
        i = i + 1;
    }
    let found = i < entries.len() && text::same(entries[i].0.as_str(), name);
    proof {
        assert forall|j: int| i <= j < entries@.len() implies (text::precedes(
            name@,
            (#[trigger] entries@[j]).0@,
        ) || (found && j == i)) by {
            text::law_precedes_total(entries@[i as int].0@, name@);
            if j > i {
                assert(text::precedes(entries@[i as int].0@, entries@[j].0@));
                if !found {
                    text::law_precedes_transitive(name@, entries@[i as int].0@, entries@[j].0@);
                }
            }
        }
        lemma_slot_found(entries@, name@, i as int, found);
    }
    (i, found)
}

/// The lowest port of the range that no entry has.
fn allocate_port(range: PortRange, entries: &Vec<(String, u16)>) -> (r: Option<u16>)
    requires
        ascending(entries@),
    ensures
        r matches Some(p) ==> lowest_free(range, contents(entries@), p as int),
        r is None ==> exhausted(range, contents(entries@)),
{
    if range.start > range.end {
        return None;
    }
    let size: usize = (range.end - range.start) as usize + 1;
    let mut used: Vec<bool> = vec![false; size];
    let mut i: usize = 0;
    while i < entries.len()
        invariant
            i <= entries@.len(),
            used@.len() == size == range.end - range.start + 1,
            forall|q: int|
                0 <= q < size ==> (#[trigger] used@[q] <==> exists|j: int|
                    0 <= j < i && (#[trigger] entries@[j]).1 == q + range.start),
        decreases entries@.len() - i,
    {
        let port: u16 = entries[i].1;
        let ghost was = used@;
        if range.contains(port) {
            used.set((port - range.start) as usize, true);
        }
        proof {
            assert forall|q: int| 0 <= q < size implies (#[trigger] used@[q] <==> exists|j: int|
                0 <= j < i + 1 && (#[trigger] entries@[j]).1 == q + range.start) by {
                if was[q] {
                    let j = choose|j: int|
                        0 <= j < i && (#[trigger] entries@[j]).1 == q + range.start;
                    assert(entries@[j].1 == q + range.start);
                }
                if port == q + range.start {
                    assert(entries@[i as int].1 == q + range.start);
                }
            }
        }
        i = i + 1;
    }
    let ghost m = contents(entries@);
    proof {
        lemma_ascending_distinct(entries@);
        assert forall|q: int| 0 <= q < size implies (#[trigger] used@[q] <==> taken(
            m,
            q + range.start,
        )) by {
            if used@[q] {
                let j = choose|j: int|
                    0 <= j < entries@.len() && (#[trigger] entries@[j]).1 == q + range.start;
                lemma_contents_value(entries@, j);
                assert(m.dom().contains(entries@[j].0@));
            }
            if taken(m, q + range.start) {
                let k = choose|k: Seq<char>| #[trigger]
                    m.dom().contains(k) && m[k] == q + range.start;
                lemma_contents_dom(entries@, k);
                let j = choose|j: int| 0 <= j < entries@.len() && (#[trigger] entries@[j]).0@ == k;
                lemma_contents_value(entries@, j);
                assert(entries@[j].1 == q + range.start);
            }
        }
    }
    let mut n: usize = 0;
    while n < size
        invariant
            n <= size,
            used@.len() == size == range.end - range.start + 1,
            m == contents(entries@),
            forall|q: int|
                0 <= q < size ==> (#[trigger] used@[q] <==> taken(m, q + range.start)),
            forall|q: int| 0 <= q < n ==> #[trigger] used@[q],
        decreases size - n,
    {
        if !used[n] {
            let port: u16 = range.start + n as u16;
            proof {
                assert forall|p: int| range.start <= p < port implies #[trigger] taken(m, p) by {
                    assert(used@[p - range.start]);
                }
                assert(!used@[n as int]);
            }
            return Some(port);
        }
        n = n + 1;
    }
    proof {
        assert forall|p: int| range.has(p) implies #[trigger] taken(m, p) by {
            assert(used@[p - range.start]);
        }
    }
    None
}

/// The characters with slashes and backslashes marked.
fn mark(cs: &[char]) -> (r: String)
    ensures
        r@ == marked(cs@),
{
    let mut out = String::new();
    let mut i: usize = 0;
    assert(out@ =~= marked(cs@.take(0)));
    while i < cs.len()
        invariant
            i <= cs@.len(),
            out@ == marked(cs@.take(i as int)),
        decreases cs@.len() - i,
    {
        assert(cs@.take(i + 1).drop_last() =~= cs@.take(i as int));
        let ghost before = out@;
        let c = cs[i];
        if c == '/' {
            out.push('\\');
            out.push('s');
        } else if c == '\\' {
            out.push('\\');
            out.push('\\');
        } else {
            out.push(c);
        }
        assert(out@ =~= before + marked_char(c));
        i = i + 1;
    }
    assert(cs@.take(i as int) =~= cs@);
    out
}

/// Whether there is a slash among the characters.
fn has_slash(cs: &[char]) -> (r: bool)
    ensures
        r == cs@.contains('/'),
{
    let n: usize = text::position(cs, '/');
    proof {
        lemma_slash(cs@);
        if n < cs@.len() {
            text::lemma_span(cs@, text::other_than('/'));
            assert(cs@[n as int] == '/');
        }
    }
    n < cs.len()
}

/// Where there is a slash, the string can be cut at one.
proof fn lemma_slash(s: Seq<char>)
    ensures
        s.contains('/') <==> text::span(s, text::other_than('/')) < s.len(),
{
    let n = text::span(s, text::other_than('/'));
    text::lemma_span(s, text::other_than('/'));
    if s.contains('/') {
        let i = choose|i: int| 0 <= i < s.len() && s[i] == '/';
        if n == s.len() {
            assert(text::other_than('/')(s[i]));
        }
    }
    if n < s.len() {
        assert(s[n as int] == '/');
    }
}

/// The string that a pair is filed under.
fn compose_key(key: &Key) -> (r: String)
    ensures
        r@ == composite(key@),
{
    let user = text::chars_of(key.user.as_str());
    if has_slash(user.as_slice()) {
        let mut inner = mark(user.as_slice());
        inner.push('/');
        inner.append(key.service.as_str());
        mark(text::chars_of(inner.as_str()).as_slice())
    } else {
        let mut out = key.user.clone();
        out.push('/');
        out.append(key.service.as_str());
        out
    }
}

/// What is marked like this.
fn unmark(s: &[char]) -> (r: Option<String>)
    ensures
        match unmarked(s@) {
            Some(plain) => r matches Some(p) && p@ == plain,
            None => r is None,
        },
{
    let total: usize = s.len();
    let mut out = String::new();
    let mut i: usize = 0;
    assert(s@.skip(0) =~= s@);
    proof {
        lemma_prefixed(Seq::empty(), unmarked(s@));
    }
    while i < total
        invariant
            i <= total == s@.len(),
            unmarked(s@) == prefixed(out@, unmarked(s@.skip(i as int))),
        decreases total - i,
    {
        let ghost rest = s@.skip(i as int);
        let ghost before = out@;
        let c = s[i];
        assert(rest[0] == c);
        if c != '\\' {
            out.push(c);
            i = i + 1;
            assert(rest.drop_first() =~= s@.skip(i as int));
            assert(out@ =~= before + seq![c]);
            proof {
                lemma_prefixed_again(before, seq![c], unmarked(s@.skip(i as int)));
            }
        } else if i + 1 < total && (s[i + 1] == 's' || s[i + 1] == '\\') {
            assert(rest[1] == s@[i + 1]);
            let plain = if s[i + 1] == 's' {
                '/'
            } else {
                '\\'
            };
            out.push(plain);
            i = i + 2;
            assert(rest.skip(2) =~= s@.skip(i as int));
            assert(out@ =~= before + seq![plain]);
            proof {
                lemma_prefixed_again(before, seq![plain], unmarked(s@.skip(i as int)));
            }
        } else {
            if i + 1 < total {
                assert(rest[1] == s@[i + 1]);
            }
            assert(unmarked(rest) is None);
            return None;
        }
    }
    assert(out@ + seq![] =~= out@);
    Some(out)
}

/// `front` and what follows it, where something does.
spec fn prefixed(front: Seq<char>, rest: Option<Seq<char>>) -> Option<Seq<char>> {
    match rest {
        Some(r) => Some(front + r),
        None => None,
    }
}

proof fn lemma_prefixed(front: Seq<char>, rest: Option<Seq<char>>)
    requires
        front.len() == 0,
    ensures
        prefixed(front, rest) == rest,
{
    if rest is Some {
        assert(front + rest->0 =~= rest->0);
    }
}

proof fn lemma_prefixed_again(a: Seq<char>, b: Seq<char>, rest: Option<Seq<char>>)
    ensures
        prefixed(a, prefixed(b, rest)) == prefixed(a + b, rest),
{
    if rest is Some {
        assert(a + (b + rest->0) =~= a + b + rest->0);
    }
}

/// The two sides of the first slash.
fn cut_at_slash<'a>(cs: &'a [char]) -> (r: Option<(&'a [char], &'a [char])>)
    ensures
        match text::split_first(cs@, '/') {
            Some(sides) => r matches Some((a, b)) && (a@, b@) == sides,
            None => r is None,
        },
{
    let n: usize = text::position(cs, '/');
    if n == cs.len() {
        return None;
    }
    let front = vstd::slice::slice_subrange(cs, 0, n);
    let back = vstd::slice::slice_subrange(cs, n + 1, cs.len());
    proof {
        assert(front@ == cs@.take(n as int));
        assert(back@ == cs@.skip(n + 1));
    }
    Some((front, back))
}

/// The pair that a string files.
fn split_key(composite: &str) -> (r: Option<Key>)
    ensures
        r is Some <==> pair_of(composite@) is Some,
        r matches Some(k) ==> pair_of(composite@) == Some(k@),
{
    let cs = text::chars_of(composite);
    if let Some((user, service)) = cut_at_slash(cs.as_slice()) {
        return Some(Key { user: text::string_of(user), service: text::string_of(service) });
    }
    let inner = match unmark(cs.as_slice()) {
        Some(inner) => text::chars_of(inner.as_str()),
        None => {
            return None;
        },
    };
    match cut_at_slash(inner.as_slice()) {
        Some((front, service)) => match unmark(front) {
            Some(user) => {
                if has_slash(text::chars_of(user.as_str()).as_slice()) {
                    Some(Key { user, service: text::string_of(service) })
                } else {
                    None
                }
            },
            None => None,
        },
        None => None,
    }
}

/// The line of an entry in the saved registry.
pub open spec fn entry_line(entry: (Seq<char>, u16)) -> Seq<char> {
    "    "@ + common::json_text(entry.0) + ": "@ + text::decimal(entry.1 as nat)
}

/// The text of a saved registry.
pub open spec fn registry_json(range: PortRange, list: Seq<(Seq<char>, u16)>) -> Seq<char> {
    "{\n  \"range\": {\n    \"start\": "@ + text::decimal(range.start as nat)
        + ",\n    \"end\": "@ + text::decimal(range.end as nat) + "\n  },\n  \"entries\": {"@ + (
    if list.len() == 0 {
        ""@
    } else {
        "\n"@ + text::joined(
            list.map_values(|e: (Seq<char>, u16)| entry_line(e)),
            ",\n"@,
        ) + "\n  "@
    }) + "}\n}"@
}

/// The text is that of a saved registry of this range and these ports.
pub open spec fn saved(text: Seq<char>, range: PortRange, ports: Map<Seq<char>, u16>) -> bool {
    exists|list: Seq<(Seq<char>, u16)>| #[trigger]
        listing(ports, list) && text == registry_json(range, list)
}

/// The text of a saved registry is not blank.
proof fn lemma_saved_is_not_blank(range: PortRange, list: Seq<(Seq<char>, u16)>)
    ensures
        !text::is_blank(registry_json(range, list)),
{
    reveal_strlit("{\n  \"range\": {\n    \"start\": ");
    assert(registry_json(range, list)[0] == '{');
    assert(!text::is_white('{'));
}

/// The parser reads what was saved as it was saved.
pub open spec fn reads_back<F: Fn(&String) -> Result<Registry, String>>(parse: F) -> bool {
    forall|s: String, range: PortRange, ports: Map<Seq<char>, u16>, r: Result<Registry, String>|
        #[trigger] saved(s@, range, ports) && #[trigger] parse.ensures((&s,), r) ==> (r matches Ok(
            g,
        ) && g.ports() == range && g@ == ports)
}

/// Which pair has which port, out of one range of ports. The view holds the names
/// with their ports; `ports` tells the range.
#[derive(Debug, PartialEq, Eq)]
pub struct Registry {
    range: PortRange,
    entries: Vec<(String, u16)>,
}

impl View for Registry {
    type V = Map<Seq<char>, u16>;

    closed spec fn view(&self) -> Map<Seq<char>, u16> {
        contents(self.entries@)
    }
}

impl Registry {
    #[verifier::type_invariant]
    spec fn names_ascend(self) -> bool {
        ascending(self.entries@)
    }

    /// The ports that registrations are given.
    pub closed spec fn ports(self) -> PortRange {
        self.range
    }

    pub fn with_range(range: PortRange) -> (r: Self)
        ensures
            r.ports() == range,
            r@ == Map::<Seq<char>, u16>::empty(),
    {
        Self { range, entries: Vec::new() }
    }

    /// A registry with the entries of a list, a later entry of a name replacing
    /// an earlier one.
    pub fn restore(range: PortRange, list: Vec<(String, u16)>) -> (r: Self)
        ensures
            r.ports() == range,
            r@ == contents(list@),
    {
        let mut entries: Vec<(String, u16)> = Vec::new();
        let mut i: usize = 0;
        while i < list.len()
            invariant
                i <= list@.len(),
                ascending(entries@),
                contents(entries@) == contents(list@.take(i as int)),
            decreases list@.len() - i,
        {
            let name = list[i].0.clone();
            let port: u16 = list[i].1;
            let (at, found) = slot(&entries, name.as_str());
            let ghost was = entries@;
            assert(list@.take(i + 1).drop_last() == list@.take(i as int));
            if found {
                entries.remove(at);
                proof {
                    lemma_remove(was, at as int);
                    let now = entries@;
                    assert forall|j: int| 0 <= j < at implies text::precedes(
                        (#[trigger] now[j]).0@,
                        name@,
                    ) by {
                        assert(now[j] == was[j]);
                    }
                    assert forall|j: int| at <= j < now.len() implies text::precedes(
                        name@,
                        (#[trigger] now[j]).0@,
                    ) by {
                        assert(now[j] == was[j + 1]);
                    }
                    assert(slot_of(now, name@, at as int, false));
                }
            }
            proof {
                lemma_insert(entries@, at as int, (name, port));
            }
            entries.insert(at, (name, port));
            assert(contents(entries@) =~= contents(list@.take(i + 1)));
            i = i + 1;
        }
        assert(list@.take(i as int) == list@);
        Self { range, entries }
    }

    /// The registry as it is saved.
    pub fn to_json(&self) -> (r: String)
        ensures
            saved(r@, self.ports(), self@),
    {
        proof {
            use_type_invariant(&*self);
            lemma_listing(self.entries@);
        }
        let ghost list = named(self.entries@);
        let ghost lines = list.map_values(|e: (Seq<char>, u16)| entry_line(e));
        let mut out = "{\n  \"range\": {\n    \"start\": ".to_owned();
        text::push_decimal(&mut out, self.range.start as u64);
        out.append(",\n    \"end\": ");
        text::push_decimal(&mut out, self.range.end as u64);
        out.append("\n  },\n  \"entries\": {");
        if self.entries.len() > 0 {
            let mut parts: Vec<String> = Vec::new();
            let mut i: usize = 0;
            assert(text::texts(parts@) =~= lines.take(0));
            while i < self.entries.len()
                invariant
                    i <= self.entries@.len(),
                    list == named(self.entries@),
                    lines == list.map_values(|e: (Seq<char>, u16)| entry_line(e)),
                    text::texts(parts@) == lines.take(i as int),
                decreases self.entries@.len() - i,
            {
                let ghost before = parts@;
                let mut part = "    ".to_owned();
                part.append(common::json_string(self.entries[i].0.as_str()).as_str());
                part.append(": ");
                text::push_decimal(&mut part, self.entries[i].1 as u64);
                assert(list[i as int] == (self.entries@[i as int].0@, self.entries@[i as int].1));
                assert(part@ =~= lines[i as int]);
                parts.push(part);
                assert(text::texts(parts@) =~= text::texts(before).push(part@));
                assert(lines.take(i + 1) =~= lines.take(i as int).push(lines[i as int]));
                i = i + 1;
            }
            assert(lines.take(i as int) =~= lines);
            out.append("\n");
            out.append(text::join(&parts, ",\n").as_str());
            out.append("\n  ");
        } else {
            proof {
                reveal_strlit("");
            }
        }
        out.append("}\n}");
        assert(out@ =~= registry_json(self.range, list));
        assert(listing(self@, list));
        out
    }

    /// A registry out of what reading its file gave. A missing file and a blank
    /// one yield an empty registry of the default range. The parser turns the text
    /// of the file into the registry that stands there as JSON, or says why it
    /// cannot; with one that reads back what was saved, a registry that was saved
    /// is loaded as it was.
    pub fn load(
        path: &str,
        read: FileRead,
        parse: impl Fn(&String) -> Result<Registry, String>,
    ) -> (r: Result<Self, LoadError>)
        requires
            forall|s: String| #[trigger] parse.requires((&s,)),
        ensures
            exists|intake: Intake|
                {
                    &&& #[trigger] files::taken_in("registry"@, path@, read, intake)
                    &&& match intake {
                        Intake::Fresh => r matches Ok(g) && g@ == Map::<Seq<char>, u16>::empty()
                            && g.ports() == (PortRange {
                            start: DEFAULT_PORT_START,
                            end: DEFAULT_PORT_END,
                        }),
                        Intake::Fail(e) => r == Err::<Registry, LoadError>(e),
                        Intake::Parse(s) => match r {
                            Ok(g) => parse.ensures((&s,), Ok(g)),
                            Err(e) => e matches LoadError::Parsing { what, path: p, cause } && what@
                                == "registry"@ && p@ == path@ && parse.ensures((&s,), Err(cause)),
                        },
                    }
                },
            reads_back(parse) ==> forall|
                s: String,
                range: PortRange,
                ports: Map<Seq<char>, u16>,
            |
                read == FileRead::Contents(s) && #[trigger] saved(s@, range, ports) ==> (
                r matches Ok(g) && g.ports() == range && g@ == ports),
    {
        let ghost given = read;
        let intake = files::take_in("registry", path, read);
        assert(files::taken_in("registry"@, path@, given, intake));
        proof {
            assert forall|s: String, range: PortRange, ports: Map<Seq<char>, u16>|
                given == FileRead::Contents(s) && #[trigger] saved(
                    s@,
                    range,
                    ports,
                ) implies intake == Intake::Parse(s) by {
                let list = choose|list: Seq<(Seq<char>, u16)>| #[trigger]
                    listing(ports, list) && s@ == registry_json(range, list);
                lemma_saved_is_not_blank(range, list);
            }
        }
        match intake {
            Intake::Fresh => Ok(Registry::default()),
            Intake::Fail(e) => Err(e),
            Intake::Parse(s) => match parse(&s) {
                Ok(registry) => Ok(registry),
                Err(cause) => Err(
                    LoadError::Parsing { what: "registry", path: path.to_owned(), cause },
                ),
            },
        }
    }

    pub fn range(&self) -> (r: PortRange)
        ensures
            r == self.ports(),
    {
        self.range
    }

    /// The entries in ascending order of their names.
    pub fn entries(&self) -> (r: &Vec<(String, u16)>)
        ensures
            listing(self@, named(r@)),
            contents(r@) == self@,
    {
        proof {
            use_type_invariant(&*self);
            lemma_listing(self.entries@);
        }
        &self.entries
    }

    /// Idempotent registration: returns the existing port if the (user,service)
    /// pair already has one, otherwise allocates the lowest free port in the
    /// range. Errors when the range is exhausted.
    pub fn register(&mut self, key: &Key) -> (r: Result<u16, RangeExhausted>)
        ensures
            registration(old(self).ports(), old(self)@, composite(key@), r, final(self)@),
            final(self).ports() == old(self).ports(),
    {
        proof {
            use_type_invariant(&*self);
            lemma_ascending_distinct(self.entries@);
            lemma_contents_len(self.entries@);
        }
        let name = compose_key(key);
        let (at, found) = slot(&self.entries, name.as_str());
        if found {
            proof {
                lemma_contents_value(self.entries@, at as int);
            }
            return Ok(self.entries[at].1);
        }
        match allocate_port(self.range, &self.entries) {
            Some(port) => {
                let mut entries: Vec<(String, u16)> = Vec::new();
                std::mem::swap(&mut entries, &mut self.entries);
                proof {
                    lemma_insert(entries@, at as int, (name, port));
                }
                entries.insert(at, (name, port));
                self.entries = entries;
                Ok(port)
            },
            None => Err(RangeExhausted { range: self.range, active: self.entries.len() }),
        }
    }

    /// Returns the freed port, or `None` if the entry was already absent.
    pub fn deregister(&mut self, key: &Key) -> (r: Option<u16>)
        ensures
            r == (if old(self)@.dom().contains(composite(key@)) {
                Some(old(self)@[composite(key@)])
            } else {
                None
            }),
            final(self)@ == old(self)@.remove(composite(key@)),
            final(self).ports() == old(self).ports(),
    {
        proof {
            use_type_invariant(&*self);
            lemma_ascending_distinct(self.entries@);
        }
        let name = compose_key(key);
        let (at, found) = slot(&self.entries, name.as_str());
        if !found {
            assert(self@.remove(name@) =~= self@);
            return None;
        }
        proof {
            lemma_contents_value(self.entries@, at as int);
            lemma_remove(self.entries@, at as int);
        }
        let mut entries: Vec<(String, u16)> = Vec::new();
        std::mem::swap(&mut entries, &mut self.entries);
        let (_, port) = entries.remove(at);
        self.entries = entries;
        Some(port)
    }

    /// The port of a pair.
    pub fn lookup(&self, key: &Key) -> (r: Option<u16>)
        ensures
            r == (if self@.dom().contains(composite(key@)) {
                Some(self@[composite(key@)])
            } else {
                None
            }),
    {
        proof {
            use_type_invariant(&*self);
            lemma_ascending_distinct(self.entries@);
        }
        let name = compose_key(key);
        let (at, found) = slot(&self.entries, name.as_str());
        if found {
            proof {
                lemma_contents_value(self.entries@, at as int);
            }
            Some(self.entries[at].1)
        } else {
            None
        }
    }

    /// How many pairs have a port.
    pub fn len(&self) -> (r: usize)
        ensures
            self@.dom().finite(),
            r == self@.dom().len(),
    {
        proof {
            use_type_invariant(&*self);
            lemma_ascending_distinct(self.entries@);
            lemma_contents_len(self.entries@);
        }
        self.entries.len()
    }

    /// Whether no pair has a port.
    pub fn is_empty(&self) -> (r: bool)
        ensures
            r == (self@ == Map::<Seq<char>, u16>::empty()),
    {
        proof {
            if self.entries@.len() > 0 {
                lemma_contents_all_names(self.entries@);
                assert(self@.dom().contains(self.entries@[0].0@));
            }
        }
        self.entries.len() == 0
    }

    /// Every pair and its port, in ascending order of the names that the pairs
    /// are filed under. An entry whose name files no pair is left out.
    pub fn snapshot(&self) -> (r: Vec<(Key, u16)>)
        ensures
            exists|list: Seq<(Seq<char>, u16)>| #[trigger]
                listing(self@, list) && snapshot_view(r@) == as_pairs(list),
    {
        let mut out: Vec<(Key, u16)> = Vec::new();
        let mut i: usize = 0;
        while i < self.entries.len()
            invariant
                i <= self.entries@.len(),
                snapshot_view(out@) == as_pairs(named(self.entries@).take(i as int)),
            decreases self.entries@.len() - i,
        {
            let ghost before = out@;
            let ghost done = named(self.entries@).take(i + 1);
            assert(done.drop_last() == named(self.entries@).take(i as int));
            assert(done.last() == (self.entries@[i as int].0@, self.entries@[i as int].1));
            match split_key(self.entries[i].0.as_str()) {
                Some(key) => {
                    out.push((key, self.entries[i].1));
                    assert(snapshot_view(out@) == snapshot_view(before).push(
                        (key@, self.entries@[i as int].1),
                    ));
                },
                None => {},
            }
            i = i + 1;
        }
        proof {
            use_type_invariant(&*self);
            lemma_listing(self.entries@);
            assert(named(self.entries@).take(i as int) == named(self.entries@));
            assert(listing(self@, named(self.entries@)));
        }
        out
    }
}

impl Clone for Registry {
    fn clone(&self) -> (r: Self)
        ensures
            r.ports() == self.ports(),
            r@ == self@,
    {
        let mut list: Vec<(String, u16)> = Vec::new();
        let mut i: usize = 0;
        while i < self.entries.len()
            invariant
                i <= self.entries@.len(),
                list@ == self.entries@.take(i as int),
            decreases self.entries@.len() - i,
        {
            list.push((self.entries[i].0.clone(), self.entries[i].1));
            i = i + 1;
        }
        proof {
            use_type_invariant(&*self);
            assert(list@ == self.entries@);
        }
        Self { range: self.range, entries: list }
    }
}

impl Default for Registry {
    fn default() -> (r: Self)
        ensures
            r.ports() == (PortRange { start: DEFAULT_PORT_START, end: DEFAULT_PORT_END }),
            r@ == Map::<Seq<char>, u16>::empty(),
    {
        Registry::with_range(default_port_range())
    }
}

/// No two names have the same port.
pub open spec fn ports_distinct(m: Map<Seq<char>, u16>) -> bool {
    forall|a: Seq<char>, b: Seq<char>| #[trigger]
        m.dom().contains(a) && #[trigger] m.dom().contains(b) && m[a] == m[b] ==> a == b
}

/// Every port is one of the range.
pub open spec fn ports_within(range: PortRange, m: Map<Seq<char>, u16>) -> bool {
    forall|a: Seq<char>| #[trigger] m.dom().contains(a) ==> range.has(m[a] as int)
}

/// Where the registry is kept, unless something else is asked for.
pub const DEFAULT_REGISTRY_PATH: &'static str = "/var/lib/ephemwork/registry.json";

/// Where the registry is kept: at the path that is asked for, if one is.
pub fn default_registry_path(asked: Option<String>) -> (r: String)
    ensures
        r@ == (match asked {
            Some(p) => p@,
            None => DEFAULT_REGISTRY_PATH@,
        }),
{
    match asked {
        Some(p) => p,
        None => DEFAULT_REGISTRY_PATH.to_owned(),
    }
}

/// Registering a name again answers the port that it got, and changes nothing.
pub proof fn law_register_idempotent(
    range: PortRange,
    before: Map<Seq<char>, u16>,
    name: Seq<char>,
    port: u16,
    after: Map<Seq<char>, u16>,
    again: Result<u16, RangeExhausted>,
    later: Map<Seq<char>, u16>,
)
    requires
        registration(range, before, name, Ok(port), after),
        registration(range, after, name, again, later),
    ensures
        again == Ok::<u16, RangeExhausted>(port),
        later == after,
{
}

/// After a registration the name has the answered port, and every other name
/// has what it had.
pub proof fn law_register_touches_one_name(
    range: PortRange,
    before: Map<Seq<char>, u16>,
    name: Seq<char>,
    port: u16,
    after: Map<Seq<char>, u16>,
    other: Seq<char>,
)
    requires
        registration(range, before, name, Ok(port), after),
    ensures
        after.dom().contains(name),
        after[name] == port,
        other != name ==> after.dom().contains(other) == before.dom().contains(other),
        other != name && before.dom().contains(other) ==> after[other] == before[other],
{
}

/// A registration answers an error exactly when the name has no port and no
/// port of the range is free.
pub proof fn law_register_fails_only_when_full(
    range: PortRange,
    before: Map<Seq<char>, u16>,
    name: Seq<char>,
    answer: Result<u16, RangeExhausted>,
    after: Map<Seq<char>, u16>,
)
    requires
        registration(range, before, name, answer, after),
    ensures
        answer is Err <==> !before.dom().contains(name) && exhausted(range, before),
{
    if answer is Ok && !before.dom().contains(name) {
        assert(!taken(before, answer->Ok_0 as int));
    }
}

proof fn lemma_ports_stay_distinct(
    range: PortRange,
    before: Map<Seq<char>, u16>,
    name: Seq<char>,
    answer: Result<u16, RangeExhausted>,
    after: Map<Seq<char>, u16>,
)
    requires
        ports_distinct(before),
        registration(range, before, name, answer, after),
    ensures
        ports_distinct(after),
{
    if !before.dom().contains(name) && answer is Ok {
        let port = answer->Ok_0;
        assert forall|a: Seq<char>, b: Seq<char>| #[trigger]
            after.dom().contains(a) && #[trigger] after.dom().contains(b) && after[a]
                == after[b] implies a == b by {
            if a == name && b != name {
                assert(before.dom().contains(b) && before[b] == port);
                assert(taken(before, port as int));
            }
            if b == name && a != name {
                assert(before.dom().contains(a) && before[a] == port);
                assert(taken(before, port as int));
            }
        }
    }
}

/// No two pairs ever share a port, and every port is one of the range: what
/// registering and deregistering keep.
pub proof fn law_ports_stay_sound(
    range: PortRange,
    before: Map<Seq<char>, u16>,
    name: Seq<char>,
    answer: Result<u16, RangeExhausted>,
    after: Map<Seq<char>, u16>,
)
    requires
        ports_distinct(before),
        ports_within(range, before),
    ensures
        registration(range, before, name, answer, after) ==> ports_distinct(after) && ports_within(
            range,
            after,
        ),
        ports_distinct(before.remove(name)),
        ports_within(range, before.remove(name)),
{
    if registration(range, before, name, answer, after) {
        lemma_ports_stay_distinct(range, before, name, answer, after);
    }
    let less = before.remove(name);
    assert forall|a: Seq<char>, b: Seq<char>| #[trigger]
        less.dom().contains(a) && #[trigger] less.dom().contains(b) && less[a]
            == less[b] implies a == b by {
        assert(before.dom().contains(a) && before.dom().contains(b));
    }
}

/// A port that was given out and freed is the one that the next newcomer gets.
pub proof fn law_freed_port_is_reused(
    range: PortRange,
    start: Map<Seq<char>, u16>,
    name: Seq<char>,
    port: u16,
    full: Map<Seq<char>, u16>,
    newcomer: Seq<char>,
    answer: Result<u16, RangeExhausted>,
    last: Map<Seq<char>, u16>,
)
    requires
        !start.dom().contains(name),
        !start.dom().contains(newcomer),
        registration(range, start, name, Ok(port), full),
        registration(range, full.remove(name), newcomer, answer, last),
    ensures
        answer == Ok::<u16, RangeExhausted>(port),
{
    assert(full.remove(name) =~= start);
    if answer is Ok {
        let p = answer->Ok_0;
        if p < port {
            assert(taken(start, p as int));
        }
        if port < p {
            assert(taken(start, port as int));
        }
    } else {
        assert(taken(start, port as int));
    }
}

/// What is marked has no slash, and it is the mark of one string alone.
proof fn lemma_marked(user: Seq<char>)
    ensures
        !marked(user).contains('/'),
        unmarked(marked(user)) == Some(user),
    decreases user.len(),
{
    if user.len() > 0 {
        let front = user.drop_last();
        lemma_marked(front);
        let whole = marked(user);
        if whole.contains('/') {
            let i = choose|i: int| 0 <= i < whole.len() && whole[i] == '/';
            if i < marked(front).len() {
                assert(marked(front)[i] == '/');
            }
        }
        assert(front + seq![user.last()] =~= user);
        lemma_unmarked_end(marked(front), front, user.last());
    }
}

proof fn lemma_unmarked_end(s: Seq<char>, user: Seq<char>, c: char)
    requires
        unmarked(s) == Some(user),
    ensures
        unmarked(s + marked_char(c)) == Some(user + seq![c]),
    decreases s.len(),
{
    let whole = s + marked_char(c);
    if s.len() == 0 {
        let m = marked_char(c);
        assert(whole =~= m);
        assert(unmarked(Seq::<char>::empty()) == Some(Seq::<char>::empty()));
        if m.len() == 1 {
            assert(m.drop_first() =~= Seq::empty());
        } else {
            assert(m.skip(2) =~= Seq::empty());
        }
        assert(user + seq![c] =~= seq![c] + Seq::<char>::empty());
    } else if s[0] != '\\' {
        let rest = unmarked(s.drop_first())->0;
        assert(whole[0] == s[0]);
        lemma_unmarked_end(s.drop_first(), rest, c);
        assert(whole.drop_first() =~= s.drop_first() + marked_char(c));
        assert(user + seq![c] =~= seq![s[0]] + (rest + seq![c]));
    } else {
        let rest = unmarked(s.skip(2))->0;
        assert(whole[0] == s[0] && whole[1] == s[1]);
        lemma_unmarked_end(s.skip(2), rest, c);
        assert(whole.skip(2) =~= s.skip(2) + marked_char(c));
        assert(user + seq![c] =~= seq![user[0]] + (rest + seq![c]));
    }
}

/// What has no slash is the mark of the string that it gives.
proof fn lemma_unmarked(s: Seq<char>)
    requires
        !s.contains('/'),
        unmarked(s) is Some,
    ensures
        marked(unmarked(s)->0) == s,
    decreases s.len(),
{
    let user = unmarked(s)->0;
    if s.len() > 0 {
        assert(s.contains(s[0]));
        let step: int = if s[0] != '\\' {
            1
        } else {
            2
        };
        let tail = s.skip(step);
        if step == 1 {
            assert(tail =~= s.drop_first());
        }
        if tail.contains('/') {
            let i = choose|i: int| 0 <= i < tail.len() && tail[i] == '/';
            assert(s[i + step] == '/');
        }
        lemma_unmarked(tail);
        let rest = unmarked(tail)->0;
        lemma_marked_front(user[0], rest);
        assert(user =~= seq![user[0]] + rest);
        assert(s =~= marked_char(user[0]) + tail);
    }
}

proof fn lemma_marked_front(c: char, rest: Seq<char>)
    ensures
        marked(seq![c] + rest) == marked_char(c) + marked(rest),
    decreases rest.len(),
{
    let whole = seq![c] + rest;
    if rest.len() == 0 {
        assert(whole.drop_last() =~= Seq::empty());
        assert(whole.last() == c);
        assert(marked(whole.drop_last()).len() == 0);
        assert(marked(whole) =~= marked_char(c) + marked(rest));
    } else {
        lemma_marked_front(c, rest.drop_last());
        assert(whole.drop_last() =~= seq![c] + rest.drop_last());
        assert(whole.last() == rest.last());
        assert(marked(whole) =~= marked_char(c) + marked(rest));
    }
}

/// A front without a slash is what stands before the first one.
proof fn lemma_cut(front: Seq<char>, back: Seq<char>)
    requires
        !front.contains('/'),
    ensures
        text::split_first(front.push('/') + back, '/') == Some((front, back)),
{
    let c = front.push('/') + back;
    let n = front.len();
    assert forall|i: int| 0 <= i < n implies text::other_than('/')(#[trigger] c[i]) by {
        assert(c[i] == front[i]);
        assert(front.contains(front[i]));
    }
    assert(c[n as int] == '/');
    text::lemma_span_unique(c, text::other_than('/'), n);
    assert(c.take(n as int) =~= front);
    assert(c.skip(n as int + 1) =~= back);
}

/// What is cut at its first slash is the two sides with a slash between them.
proof fn lemma_uncut(s: Seq<char>)
    requires
        text::split_first(s, '/') is Some,
    ensures
        ({
            let (front, back) = text::split_first(s, '/')->0;
            !front.contains('/') && front.push('/') + back == s
        }),
{
    let n = text::span(s, text::other_than('/')) as int;
    text::lemma_span(s, text::other_than('/'));
    let front = s.take(n);
    assert(s[n] == '/');
    if front.contains('/') {
        let i = choose|i: int| 0 <= i < front.len() && front[i] == '/';
        assert(text::other_than('/')(s[i]));
    }
    assert(front.push('/') + s.skip(n + 1) =~= s);
}

/// A pair is what its name files.
pub proof fn law_pair_of_composite(user: Seq<char>, service: Seq<char>)
    ensures
        pair_of(composite((user, service))) == Some((user, service)),
{
    if user.contains('/') {
        let inner = marked(user).push('/') + service;
        lemma_marked(user);
        lemma_marked(inner);
        lemma_slash(marked(inner));
        lemma_cut(marked(user), service);
    } else {
        lemma_cut(user, service);
    }
}

/// Two different pairs are filed under different names.
pub proof fn law_pairs_do_not_collide(a: (Seq<char>, Seq<char>), b: (Seq<char>, Seq<char>))
    requires
        composite(a) == composite(b),
    ensures
        a == b,
{
    law_pair_of_composite(a.0, a.1);
    law_pair_of_composite(b.0, b.1);
}

/// The pair that a name files is filed under that name.
pub proof fn law_composite_of_pair(name: Seq<char>)
    requires
        pair_of(name) is Some,
    ensures
        composite(pair_of(name)->0) == name,
{
    if text::split_first(name, '/') is Some {
        lemma_uncut(name);
    } else {
        let inner = unmarked(name)->0;
        let (front, _) = text::split_first(inner, '/')->0;
        lemma_slash(name);
        lemma_unmarked(name);
        lemma_uncut(inner);
        lemma_unmarked(front);
    }
}

/// Two different pairs, both registered, have two different ports, and taking
/// one of them out leaves the other its port.
pub proof fn law_each_pair_has_its_own_port(
    range: PortRange,
    before: Map<Seq<char>, u16>,
    a: (Seq<char>, Seq<char>),
    port_a: u16,
    between: Map<Seq<char>, u16>,
    b: (Seq<char>, Seq<char>),
    port_b: u16,
    after: Map<Seq<char>, u16>,
)
    requires
        a != b,
        ports_distinct(before),
        registration(range, before, composite(a), Ok(port_a), between),
        registration(range, between, composite(b), Ok(port_b), after),
    ensures
        port_a != port_b,
        after.dom().contains(composite(a)) && after[composite(a)] == port_a,
        after.dom().contains(composite(b)) && after[composite(b)] == port_b,
        after.remove(composite(b)).dom().contains(composite(a)),
        after.remove(composite(b))[composite(a)] == port_a,
{
    if composite(a) == composite(b) {
        law_pairs_do_not_collide(a, b);
    }
    lemma_ports_stay_distinct(range, before, composite(a), Ok(port_a), between);
    lemma_ports_stay_distinct(range, between, composite(b), Ok(port_b), after);
    assert(after.dom().contains(composite(a)) && after.dom().contains(composite(b)));
}

/// There is one listing of given contents: what is rendered from it does not
/// depend on the order in which the pairs came.
pub proof fn law_listing_unique(
    m: Map<Seq<char>, u16>,
    a: Seq<(Seq<char>, u16)>,
    b: Seq<(Seq<char>, u16)>,
)
    requires
        listing(m, a),
        listing(m, b),
    ensures
        a == b,
    decreases a.len(),
{
    if a.len() == 0 {
        if b.len() > 0 {
            assert(m.dom().contains(b[0].0));
        }
        assert(a =~= b);
    } else {
        let k = a[0].0;
        assert(m.dom().contains(k));
        let j = choose|j: int| 0 <= j < b.len() && (#[trigger] b[j]).0 == k;
        assert(m.dom().contains(b[0].0));
        let i = choose|i: int| 0 <= i < a.len() && (#[trigger] a[i]).0 == b[0].0;
        if j > 0 {
            assert(text::precedes(b[0].0, b[j].0));
            if i > 0 {
                assert(text::precedes(a[0].0, a[i].0));
                text::law_precedes_transitive(a[0].0, a[i].0, a[0].0);
            }
            text::law_precedes_irreflexive(k);
        }
        assert(b[0].0 == k);
        lemma_listing_tail(m, a);
        lemma_listing_tail(m, b);
        law_listing_unique(m.remove(k), a.drop_first(), b.drop_first());
        assert(a == seq![a[0]] + a.drop_first());
        assert(b == seq![b[0]] + b.drop_first());
    }
}

proof fn lemma_listing_tail(m: Map<Seq<char>, u16>, a: Seq<(Seq<char>, u16)>)
    requires
        listing(m, a),
        a.len() > 0,
    ensures
        listing(m.remove(a[0].0), a.drop_first()),
{
    let t = a.drop_first();
    let n = m.remove(a[0].0);
    assert forall|i: int, j: int| 0 <= i < j < t.len() implies text::precedes(
        (#[trigger] t[i]).0,
        (#[trigger] t[j]).0,
    ) by {
        assert(t[i] == a[i + 1] && t[j] == a[j + 1]);
    }
    assert forall|i: int| 0 <= i < t.len() implies n.dom().contains((#[trigger] t[i]).0)
        && n[t[i].0] == t[i].1 by {
        assert(t[i] == a[i + 1]);
        assert(text::precedes(a[0].0, a[i + 1].0));
        text::law_precedes_irreflexive(a[0].0);
    }
    assert forall|k: Seq<char>| #[trigger] n.dom().contains(k) implies exists|i: int|
        0 <= i < t.len() && (#[trigger] t[i]).0 == k by {
        assert(m.dom().contains(k));
        let i = choose|i: int| 0 <= i < a.len() && (#[trigger] a[i]).0 == k;
        assert(t[i - 1] == a[i]);
    }
}

/// A snapshot is complete and says nothing else: it holds a pair and a port
/// exactly when the pair is filed with that port.
pub proof fn law_snapshot_is_complete(
    m: Map<Seq<char>, u16>,
    list: Seq<(Seq<char>, u16)>,
    pair: (Seq<char>, Seq<char>),
    port: u16,
)
    requires
        listing(m, list),
    ensures
        as_pairs(list).contains((pair, port)) <==> m.dom().contains(composite(pair))
            && m[composite(pair)] == port,
{
    law_pair_of_composite(pair.0, pair.1);
    lemma_as_pairs(list, pair, port);
    if m.dom().contains(composite(pair)) && m[composite(pair)] == port {
        let i = choose|i: int| 0 <= i < list.len() && (#[trigger] list[i]).0 == composite(pair);
        assert(pair_of(list[i].0) == Some(pair) && list[i].1 == port);
    }
    if as_pairs(list).contains((pair, port)) {
        let i = choose|i: int|
            0 <= i < list.len() && pair_of((#[trigger] list[i]).0) == Some(pair) && list[i].1
                == port;
        law_composite_of_pair(list[i].0);
        assert(m.dom().contains(list[i].0));
    }
}

proof fn lemma_as_pairs(list: Seq<(Seq<char>, u16)>, pair: (Seq<char>, Seq<char>), port: u16)
    ensures
        as_pairs(list).contains((pair, port)) <==> exists|i: int|
            0 <= i < list.len() && pair_of((#[trigger] list[i]).0) == Some(pair) && list[i].1
                == port,
    decreases list.len(),
{
    if list.len() > 0 {
        let d = list.drop_last();
        let p = as_pairs(list);
        let q = as_pairs(d);
        lemma_as_pairs(d, pair, port);
        if p.contains((pair, port)) {
            let x = choose|x: int| 0 <= x < p.len() && p[x] == (pair, port);
            if x < q.len() {
                assert(q[x] == (pair, port));
                let i = choose|i: int|
                    0 <= i < d.len() && pair_of((#[trigger] d[i]).0) == Some(pair) && d[i].1
                        == port;
                assert(list[i] == d[i]);
            } else {
                assert(pair_of(list[list.len() - 1].0) == Some(pair));
            }
        }
        if exists|i: int|
            0 <= i < list.len() && pair_of((#[trigger] list[i]).0) == Some(pair) && list[i].1
                == port {
            let i = choose|i: int|
                0 <= i < list.len() && pair_of((#[trigger] list[i]).0) == Some(pair) && list[i].1
                    == port;
            if i < d.len() {
                assert(d[i] == list[i]);
                let x = choose|x: int| 0 <= x < q.len() && q[x] == (pair, port);
                assert(p[x] == (pair, port));
            } else {
                assert(p[p.len() - 1] == (pair, port));
            }
        }
    }
}

/// A registry restored from the entries of another holds what that one holds.
pub proof fn law_restore_gives_back(entries: Seq<(String, u16)>, m: Map<Seq<char>, u16>)
    requires
        listing(m, named(entries)),
    ensures
        contents(entries) == m,
{
    let l = named(entries);
    assert forall|i: int, j: int| 0 <= i < j < entries.len() implies text::precedes(
        (#[trigger] entries[i]).0@,
        (#[trigger] entries[j]).0@,
    ) by {
        assert(text::precedes(l[i].0, l[j].0));
    }
    assert forall|i: int| 0 <= i < entries.len() implies m.dom().contains(
        (#[trigger] entries[i]).0@,
    ) && m[entries[i].0@] == entries[i].1 by {
        assert(m.dom().contains(l[i].0));
    }
    assert forall|k: Seq<char>| #[trigger] m.dom().contains(k) implies exists|i: int|
        0 <= i < entries.len() && (#[trigger] entries[i]).0@ == k by {
        let i = choose|i: int| 0 <= i < l.len() && (#[trigger] l[i]).0 == k;
        assert(entries[i].0@ == k);
    }
    lemma_contents_from_listing(entries, m);
}

/// A call that changes a registry, with the pair that it is about.
pub enum Change {
    Register((Seq<char>, Seq<char>)),
    Deregister((Seq<char>, Seq<char>)),
}

impl Change {
    /// The pair that the call is about.
    pub open spec fn pair(self) -> (Seq<char>, Seq<char>) {
        match self {
            Change::Register(pair) => pair,
            Change::Deregister(pair) => pair,
        }
    }
}

/// What one call makes of the contents of a registry.
pub open spec fn changed(
    range: PortRange,
    before: Map<Seq<char>, u16>,
    change: Change,
    after: Map<Seq<char>, u16>,
) -> bool {
    match change {
        Change::Register(pair) => exists|answer: Result<u16, RangeExhausted>| #[trigger]
            registration(range, before, composite(pair), answer, after),
        Change::Deregister(pair) => after == before.remove(composite(pair)),
    }
}

/// The contents that a registry goes through under a run of calls, from the first
/// to the last.
pub open spec fn history(
    range: PortRange,
    states: Seq<Map<Seq<char>, u16>>,
    changes: Seq<Change>,
) -> bool {
    &&& states.len() == changes.len() + 1
    &&& forall|i: int|
        0 <= i < changes.len() ==> changed(range, states[i], #[trigger] changes[i], states[i + 1])
}

proof fn lemma_history_front(
    range: PortRange,
    states: Seq<Map<Seq<char>, u16>>,
    changes: Seq<Change>,
)
    requires
        history(range, states, changes),
        changes.len() > 0,
    ensures
        history(range, states.drop_last(), changes.drop_last()),
        changed(range, states.drop_last().last(), changes.last(), states.last()),
{
    assert(changes[changes.len() - 1] == changes.last());
    assert forall|i: int| 0 <= i < changes.len() - 1 implies changed(
        range,
        states.drop_last()[i],
        #[trigger] changes.drop_last()[i],
        states.drop_last()[i + 1],
    ) by {
        assert(changes[i] == changes.drop_last()[i]);
    }
}

/// Calls for other pairs leave a pair what it has.
proof fn lemma_others_leave_it(
    range: PortRange,
    states: Seq<Map<Seq<char>, u16>>,
    changes: Seq<Change>,
    pair: (Seq<char>, Seq<char>),
)
    requires
        history(range, states, changes),
        forall|i: int| 0 <= i < changes.len() ==> (#[trigger] changes[i]).pair() != pair,
        states[0].dom().contains(composite(pair)),
    ensures
        states.last().dom().contains(composite(pair)),
        states.last()[composite(pair)] == states[0][composite(pair)],
    decreases changes.len(),
{
    if changes.len() > 0 {
        let front = changes.drop_last();
        lemma_history_front(range, states, changes);
        assert forall|i: int| 0 <= i < front.len() implies (#[trigger] front[i]).pair() != pair by {
            assert(front[i] == changes[i]);
        }
        lemma_others_leave_it(range, states.drop_last(), front, pair);
        let other = changes[changes.len() - 1].pair();
        if composite(other) == composite(pair) {
            law_pairs_do_not_collide(other, pair);
        }
    }
}

/// A pair keeps its port: registered again after any calls for other pairs, it is
/// answered the port that it got, and nothing changes.
pub proof fn law_pair_keeps_its_port(
    range: PortRange,
    before: Map<Seq<char>, u16>,
    pair: (Seq<char>, Seq<char>),
    port: u16,
    states: Seq<Map<Seq<char>, u16>>,
    changes: Seq<Change>,
    again: Result<u16, RangeExhausted>,
    later: Map<Seq<char>, u16>,
)
    requires
        history(range, states, changes),
        registration(range, before, composite(pair), Ok(port), states[0]),
        forall|i: int| 0 <= i < changes.len() ==> (#[trigger] changes[i]).pair() != pair,
        registration(range, states.last(), composite(pair), again, later),
    ensures
        again == Ok::<u16, RangeExhausted>(port),
        later == states.last(),
{
    lemma_others_leave_it(range, states, changes, pair);
}

/// Every name files a pair.
pub open spec fn files_pairs(m: Map<Seq<char>, u16>) -> bool {
    forall|k: Seq<char>| #[trigger] m.dom().contains(k) ==> pair_of(k) is Some
}

/// What a registry that began empty holds after any calls: names of pairs, each
/// with a port of the range that no other has.
pub proof fn law_reached_registry_is_sound(
    range: PortRange,
    states: Seq<Map<Seq<char>, u16>>,
    changes: Seq<Change>,
)
    requires
        history(range, states, changes),
        states[0] == Map::<Seq<char>, u16>::empty(),
    ensures
        files_pairs(states.last()),
        ports_distinct(states.last()),
        ports_within(range, states.last()),
    decreases changes.len(),
{
    if changes.len() > 0 {
        lemma_history_front(range, states, changes);
        law_reached_registry_is_sound(range, states.drop_last(), changes.drop_last());
        let before = states.drop_last().last();
        let name = composite(changes.last().pair());
        law_pair_of_composite(changes.last().pair().0, changes.last().pair().1);
        match changes.last() {
            Change::Register(pair) => {
                let answer = choose|answer: Result<u16, RangeExhausted>| #[trigger]
                    registration(range, before, name, answer, states.last());
                law_ports_stay_sound(range, before, name, answer, states.last());
            },
            Change::Deregister(pair) => {
                law_ports_stay_sound(range, before, name, Ok(0), states.last());
            },
        }
    }
}

/// There are as many entries as names.
proof fn lemma_listing_len(m: Map<Seq<char>, u16>, list: Seq<(Seq<char>, u16)>)
    requires
        listing(m, list),
    ensures
        m.dom().finite(),
        m.dom().len() == list.len(),
    decreases list.len(),
{
    if list.len() == 0 {
        assert(m.dom() =~= Set::empty());
    } else {
        let k = list[0].0;
        assert(m.dom().contains(k));
        lemma_listing_tail(m, list);
        lemma_listing_len(m.remove(k), list.drop_first());
        assert(m.dom() =~= m.remove(k).dom().insert(k));
    }
}

/// Where every name files a pair, none is left out.
proof fn lemma_as_pairs_all(list: Seq<(Seq<char>, u16)>)
    requires
        forall|i: int| 0 <= i < list.len() ==> pair_of((#[trigger] list[i]).0) is Some,
    ensures
        as_pairs(list).len() == list.len(),
        forall|i: int|
            0 <= i < list.len() ==> (#[trigger] as_pairs(list)[i]) == (
                pair_of(list[i].0)->0,
                list[i].1,
            ),
    decreases list.len(),
{
    if list.len() > 0 {
        let front = list.drop_last();
        assert forall|i: int| 0 <= i < front.len() implies pair_of((#[trigger] front[i]).0) is Some by {
            assert(front[i] == list[i]);
        }
        lemma_as_pairs_all(front);
        assert(pair_of(list[list.len() - 1].0) is Some);
        assert forall|i: int| 0 <= i < list.len() implies (#[trigger] as_pairs(list)[i]) == (
            pair_of(list[i].0)->0,
            list[i].1,
        ) by {
            if i < front.len() {
                assert(as_pairs(list)[i] == as_pairs(front)[i]);
                assert(front[i] == list[i]);
            }
        }
    }
}

/// The snapshot of a registry that began empty, after any calls: it has as many
/// items as there are names, each pair once and with the port that it has, in
/// ascending order of the names, and no port twice nor outside the range.
pub proof fn law_snapshot_of_reached_registry(
    range: PortRange,
    states: Seq<Map<Seq<char>, u16>>,
    changes: Seq<Change>,
    list: Seq<(Seq<char>, u16)>,
)
    requires
        history(range, states, changes),
        states[0] == Map::<Seq<char>, u16>::empty(),
        listing(states.last(), list),
    ensures
        ({
            let m = states.last();
            let items = as_pairs(list);
            &&& m.dom().finite()
            &&& items.len() == m.dom().len()
            &&& forall|i: int|
                0 <= i < items.len() ==> m.dom().contains(composite((#[trigger] items[i]).0))
                    && m[composite(items[i].0)] == items[i].1 && range.has(items[i].1 as int)
            &&& forall|pair: (Seq<char>, Seq<char>), port: u16|
                #[trigger] items.contains((pair, port)) <==> m.dom().contains(composite(pair))
                    && m[composite(pair)] == port
            &&& forall|i: int, j: int|
                0 <= i < j < items.len() ==> text::precedes(
                    composite((#[trigger] items[i]).0),
                    composite((#[trigger] items[j]).0),
                ) && items[i].0 != items[j].0 && items[i].1 != items[j].1
        }),
{
    let m = states.last();
    let items = as_pairs(list);
    law_reached_registry_is_sound(range, states, changes);
    lemma_listing_len(m, list);
    assert forall|i: int| 0 <= i < list.len() implies pair_of((#[trigger] list[i]).0) is Some by {
        assert(m.dom().contains(list[i].0));
    }
    lemma_as_pairs_all(list);
    assert forall|i: int| 0 <= i < items.len() implies composite((#[trigger] items[i]).0)
        == list[i].0 by {
        law_composite_of_pair(list[i].0);
    }
    assert forall|pair: (Seq<char>, Seq<char>), port: u16|
        #[trigger] items.contains((pair, port)) <==> m.dom().contains(composite(pair))
            && m[composite(pair)] == port by {
        law_snapshot_is_complete(m, list, pair, port);
    }
    assert forall|i: int, j: int| 0 <= i < j < items.len() implies text::precedes(
        composite((#[trigger] items[i]).0),
        composite((#[trigger] items[j]).0),
    ) && items[i].0 != items[j].0 && items[i].1 != items[j].1 by {
        assert(text::precedes(list[i].0, list[j].0));
        text::law_precedes_irreflexive(list[i].0);
        assert(m.dom().contains(list[i].0) && m.dom().contains(list[j].0));
    }
}

/// A registry that is restored holds the names of the list, and of a name that is there
/// more than once the last port.
pub proof fn law_restored_from_its_list(range: PortRange, list: Vec<(String, u16)>, r: Registry)
    requires
        call_ensures(Registry::restore, (range, list), r),
    ensures
        r.ports() == range,
        forall|k: Seq<char>| #[trigger]
            r@.dom().contains(k) <==> exists|i: int|
                0 <= i < list@.len() && (#[trigger] list@[i]).0@ == k,
        forall|i: int|
            0 <= i < list@.len() && (forall|j: int|
                i < j < list@.len() ==> (#[trigger] list@[j]).0@ != list@[i].0@)
                ==> r@[(#[trigger] list@[i]).0@] == list@[i].1,
{
    assert forall|k: Seq<char>| #[trigger]
        r@.dom().contains(k) <==> exists|i: int|
            0 <= i < list@.len() && (#[trigger] list@[i]).0@ == k by {
        lemma_contents_dom(list@, k);
    }
    assert forall|i: int|
        0 <= i < list@.len() && (forall|j: int|
            i < j < list@.len() ==> (#[trigger] list@[j]).0@ != list@[i].0@) implies r@[(
    #[trigger] list@[i]).0@] == list@[i].1 by {
        lemma_last_counts(list@, i);
    }
}

proof fn lemma_last_counts(list: Seq<(String, u16)>, i: int)
    requires
        0 <= i < list.len(),
        forall|j: int| i < j < list.len() ==> (#[trigger] list[j]).0@ != list[i].0@,
    ensures
        contents(list)[list[i].0@] == list[i].1,
    decreases list.len(),
{
    if i < list.len() - 1 {
        let front = list.drop_last();
        assert(list[list.len() - 1].0@ != list[i].0@);
        assert forall|j: int| i < j < front.len() implies (#[trigger] front[j]).0@
            != front[i].0@ by {
            assert(front[j] == list[j]);
        }
        lemma_last_counts(front, i);
        assert(front[i] == list[i]);
    }
}

/// A look-up gives the port of the pair, and nothing of a pair that has none; a registry
/// is as long as it has pairs.
pub proof fn law_look_up_gives_the_port(
    reg: Registry,
    key: Key,
    port: Option<u16>,
    n: usize,
    empty: bool,
)
    requires
        call_ensures(Registry::lookup, (&reg, &key), port),
        call_ensures(Registry::len, (&reg,), n),
        call_ensures(Registry::is_empty, (&reg,), empty),
    ensures
        port is Some <==> reg@.dom().contains(composite((key.user@, key.service@))),
        port matches Some(p) ==> reg@[composite((key.user@, key.service@))] == p,
        n == reg@.dom().len(),
        empty <==> n == 0,
{
    if n == 0 {
        assert(reg@ =~= Map::<Seq<char>, u16>::empty());
    }
}

/// A registry whose file is not there, or blank, is empty with the usual ports; one whose
/// file holds anything is what that reads as, and a file that cannot be read or
/// understood is an error.
pub proof fn law_registry_is_loaded<F: Fn(&String) -> Result<Registry, String>>(
    path: &str,
    read: FileRead,
    parse: F,
    r: Result<Registry, LoadError>,
)
    requires
        call_ensures(Registry::load, (path, read, parse), r),
    ensures
        match read {
            FileRead::NotFound => r matches Ok(g) && g@ == Map::<Seq<char>, u16>::empty()
                && g.ports().start == 10000 && g.ports().end == 19999,
            FileRead::Failed(e) => r is Err,
            FileRead::Contents(s) => if exists|i: int|
                0 <= i < s@.len() && !text::is_white(#[trigger] s@[i]) {
                match r {
                    Ok(g) => parse.ensures((&s,), Ok(g)),
                    Err(LoadError::Parsing { path: p, cause, .. }) => p@ == path@ && parse.ensures(
                        (&s,),
                        Err(cause),
                    ),
                    Err(_) => false,
                }
            } else {
                r matches Ok(g) && g@ == Map::<Seq<char>, u16>::empty() && g.ports().start == 10000
                    && g.ports().end == 19999
            },
        },
{
}

/// Taking a pair out gives back the port that it had, and nothing of a pair that had none;
/// then it has none, and every other pair has what it had.
pub proof fn law_taken_out_with_its_port(
    reg: &mut Registry,
    key: Key,
    r: Option<u16>,
    other: Seq<char>,
)
    requires
        call_ensures(Registry::deregister, (reg, &key), r),
    ensures
        ({
            let name = composite((key.user@, key.service@));
            &&& r is Some <==> old(reg)@.dom().contains(name)
            &&& r matches Some(port) ==> old(reg)@[name] == port
            &&& !final(reg)@.dom().contains(name)
            &&& other != name ==> final(reg)@.dom().contains(other) == old(reg)@.dom().contains(
                other,
            )
            &&& other != name && old(reg)@.dom().contains(other) ==> final(reg)@[other] == old(reg)@[other]
            &&& final(reg).ports() == old(reg).ports()
        }),
{
}

/// A pair that registers has the port that it is given, from then on, and no other pair
/// has its port changed.
pub proof fn law_registered_with_its_port(
    reg: &mut Registry,
    key: Key,
    r: Result<u16, RangeExhausted>,
    other: Seq<char>,
)
    requires
        call_ensures(Registry::register, (reg, &key), r),
    ensures
        ({
            let name = composite((key.user@, key.service@));
            &&& r matches Ok(port) ==> final(reg)@.dom().contains(name) && final(reg)@[name] == port
            &&& r is Err ==> final(reg)@ == old(reg)@
            &&& old(reg)@.dom().contains(name) ==> r == Ok::<u16, RangeExhausted>(old(reg)@[name])
            &&& other != name ==> final(reg)@.dom().contains(other) == old(reg)@.dom().contains(
                other,
            )
            &&& other != name && old(reg)@.dom().contains(other) ==> final(reg)@[other] == old(reg)@[other]
            &&& final(reg).ports() == old(reg).ports()
        }),
{
}

} // verus!
