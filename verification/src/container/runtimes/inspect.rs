//! Making sense of what the runtime reports.

use crate::container::Container;
use crate::container::ContainerInfo;
use crate::stores;
use crate::text;
use rustc_hash::FxHashMap;
use std::collections::HashMap;
use vstd::prelude::*;
use vstd::string::*;

verus! {

/// A container port and the host ports that it is published on.
#[derive(Debug)]
pub struct PublishedPort {
    /// The port and its protocol, such as `80/tcp`.
    pub port: String,
    pub host_ports: Option<Vec<Option<String>>>,
}

/// The number before the slash.
pub open spec fn port_number(s: Seq<char>) -> Option<nat> {
    text::unsigned_value(text::split(s, "/"@)[0], 65535)
}

/// The mappings with the host ports of one container port added; a later one
/// replaces an earlier.
pub open spec fn with_host_ports(m: Map<u16, u16>, port: Seq<char>, hosts: Seq<Option<String>>) -> Map<u16, u16>
    decreases hosts.len(),
{
    if hosts.len() == 0 {
        m
    } else {
        let before = with_host_ports(m, port, hosts.drop_last());
        match hosts.last() {
            Some(h) => match (port_number(port), text::unsigned_value(h@, 65535)) {
                (Some(c), Some(p)) => before.insert(c as u16, p as u16),
                _ => before,
            },
            None => before,
        }
    }
}

/// The host port of each container port that has one.
pub open spec fn mappings(ports: Seq<PublishedPort>) -> Map<u16, u16>
    decreases ports.len(),
{
    if ports.len() == 0 {
        Map::empty()
    } else {
        let before = mappings(ports.drop_last());
        match ports.last().host_ports {
            Some(h) => with_host_ports(before, ports.last().port@, h@),
            None => before,
        }
    }
}

/// The host port of each container port that has one.
pub fn collect_port_mappings(ports: &Vec<PublishedPort>) -> (r: HashMap<u16, u16>)
    ensures
        r@ == mappings(ports@),
{
    let mut r: HashMap<u16, u16> = HashMap::new();
    let mut i: usize = 0;
    assert(ports@.take(0) =~= Seq::empty());
    while i < ports.len()
        invariant
            i <= ports@.len(),
            r@ == mappings(ports@.take(i as int)),
        decreases ports@.len() - i,
    {
        let entry: &PublishedPort = &ports[i];
        let ghost before = r@;
        proof {
            assert(ports@.take(i + 1).drop_last() =~= ports@.take(i as int));
            assert(ports@.take(i + 1).last() == ports@[i as int]);
        }
        if let Some(hosts) = &entry.host_ports {
            let mut j: usize = 0;
            assert(hosts@.take(0) =~= Seq::empty());
            while j < hosts.len()
                invariant
                    j <= hosts@.len(),
                    r@ == with_host_ports(before, entry.port@, hosts@.take(j as int)),
                decreases hosts@.len() - j,
            {
                proof {
                    assert(hosts@.take(j + 1).drop_last() =~= hosts@.take(j as int));
                    assert(hosts@.take(j + 1).last() == hosts@[j as int]);
                    reveal_strlit("/");
                }
                if let Some(h) = &hosts[j] {
                    let parts: Vec<String> = text::split_on(entry.port.as_str(), "/");
                    assert(text::split(entry.port@, "/"@).len() > 0);
                    assert(parts@[0]@ == parts@.map_values(|p: String| p@)[0]);
                    if let Some(c) = text::parse_unsigned(parts[0].as_str(), 65535) {
                        if let Some(p) = text::parse_unsigned(h.as_str(), 65535) {
                            r.insert(c as u16, p as u16);
                        }
                    }
                }
                j = j + 1;
            }
            assert(hosts@.take(j as int) =~= hosts@);
        }
        i = i + 1;
    }
    assert(ports@.take(i as int) =~= ports@);
    r
}

/// A container as the runtime lists it.
#[derive(Debug)]
pub struct ListedContainer {
    pub id: Option<String>,
    pub names: Option<Vec<String>>,
    pub state: Option<String>,
    /// The public ports, in order; some are not public.
    pub ports: Option<Vec<Option<u16>>>,
}

/// The text without the slashes that it begins with.
pub open spec fn without_slashes(s: Seq<char>) -> Seq<char>
    decreases s.len(),
{
    if s.len() > 0 && s[0] == '/' {
        without_slashes(s.skip(1))
    } else {
        s
    }
}

/// The text without the slashes that it begins with.
fn trim_slashes(s: &str) -> (r: String)
    ensures
        r@ == without_slashes(s@),
{
    let chars: Vec<char> = text::chars_of(s);
    let mut i: usize = 0;
    assert(s@.skip(0) =~= s@);
    while i < chars.len() && chars[i] == '/'
        invariant
            i <= chars@.len(),
            chars@ == s@,
            without_slashes(s@) == without_slashes(s@.skip(i as int)),
        decreases chars@.len() - i,
    {
        assert(s@.skip(i as int).skip(1) =~= s@.skip(i + 1));
        i = i + 1;
    }
    assert(s@.subrange(i as int, s@.len() as int) =~= s@.skip(i as int));
    s.substring_char(i, chars.len()).to_owned()
}

/// What a `ContainerInfo` says.
pub struct InfoFacts {
    pub id: Seq<char>,
    pub name: Seq<char>,
    pub state: Seq<char>,
    pub port: u16,
}

impl View for ContainerInfo {
    type V = InfoFacts;

    open spec fn view(&self) -> InfoFacts {
        InfoFacts { id: self.id@, name: self.name@, state: self.state@, port: self.port }
    }
}

/// The text, or the empty one.
pub open spec fn text_or_empty(s: Option<String>) -> Seq<char> {
    match s {
        Some(t) => t@,
        None => Seq::empty(),
    }
}

/// What is kept of a listed container: its first name, and its first port where
/// that is public.
pub open spec fn info_of(c: ListedContainer) -> InfoFacts {
    InfoFacts {
        id: text_or_empty(c.id),
        name: match c.names {
            Some(n) => if n@.len() > 0 {
                without_slashes(n@[0]@)
            } else {
                Seq::empty()
            },
            None => Seq::empty(),
        },
        state: text_or_empty(c.state),
        port: match c.ports {
            Some(p) => if p@.len() > 0 && p@[0] is Some {
                p@[0]->0
            } else {
                0
            },
            None => 0,
        },
    }
}

/// The container runs.
pub open spec fn is_running(c: ListedContainer) -> bool {
    c.state is Some && c.state->0@ == "running"@
}

/// The running ones of some listed containers, in order.
pub open spec fn running(listed: Seq<ListedContainer>) -> Seq<InfoFacts>
    decreases listed.len(),
{
    if listed.len() == 0 {
        Seq::empty()
    } else {
        let rest = running(listed.drop_last());
        if is_running(listed.last()) {
            rest.push(info_of(listed.last()))
        } else {
            rest
        }
    }
}

fn copy_or_empty(s: &Option<String>) -> (r: String)
    ensures
        r@ == text_or_empty(*s),
{
    match s {
        Some(t) => t.clone(),
        None => String::new(),
    }
}

/// What is kept of a listed container.
fn summarize(c: &ListedContainer) -> (r: ContainerInfo)
    ensures
        r@ == info_of(*c),
{
    let name: String = match &c.names {
        Some(n) => {
            if n.len() > 0 {
                trim_slashes(n[0].as_str())
            } else {
                String::new()
            }
        },
        None => String::new(),
    };
    let port: u16 = match &c.ports {
        Some(p) => {
            if p.len() > 0 {
                match p[0] {
                    Some(n) => n,
                    None => 0,
                }
            } else {
                0
            }
        },
        None => 0,
    };
    ContainerInfo { id: copy_or_empty(&c.id), name, state: copy_or_empty(&c.state), port }
}

/// The running ones of some listed containers.
pub fn list_containers(listed: &Vec<ListedContainer>) -> (r: Vec<ContainerInfo>)
    ensures
        r@.map_values(|c: ContainerInfo| c@) == running(listed@),
{
    let mut r: Vec<ContainerInfo> = Vec::new();
    let mut i: usize = 0;
    assert(listed@.take(0) =~= Seq::empty());
    assert(r@.map_values(|c: ContainerInfo| c@) =~= Seq::empty());
    while i < listed.len()
        invariant
            i <= listed@.len(),
            r@.map_values(|c: ContainerInfo| c@) == running(listed@.take(i as int)),
        decreases listed@.len() - i,
    {
        let ghost before = r@;
        proof {
            assert(listed@.take(i + 1).drop_last() =~= listed@.take(i as int));
            assert(listed@.take(i + 1).last() == listed@[i as int]);
        }
        let c: &ListedContainer = &listed[i];
        let up: bool = match &c.state {
            Some(s) => text::same(s.as_str(), "running"),
            None => false,
        };
        if up {
            let info: ContainerInfo = summarize(c);
            r.push(info);
            assert(r@.map_values(|c: ContainerInfo| c@) =~= before.map_values(|c: ContainerInfo| c@).push(info@));
        }
        i = i + 1;
    }
    assert(listed@.take(i as int) =~= listed@);
    r
}

/// The filter that finds the containers of a service by name.
pub fn name_filter(service_name: &str) -> (r: String)
    ensures
        r@ == service_name@ + "__"@,
{
    service_name.to_owned().concat("__")
}

/// The image on record for the container is not the one given.
pub open spec fn image_differs(current: Map<Seq<char>, String>, container: Seq<char>, digest: Seq<char>) -> bool {
    !current.contains_key(container) || current[container]@ != digest
}

/// Which containers have a new image, by name; of several with one name, the
/// last counts.
pub open spec fn updates_of(
    current: Map<Seq<char>, String>,
    containers: Seq<Container>,
    digests: Seq<String>,
) -> Map<Seq<char>, bool>
    decreases digests.len(),
{
    if digests.len() == 0 {
        Map::empty()
    } else {
        let n = digests.len() - 1;
        updates_of(current, containers, digests.drop_last()).insert(
            containers[n].name@,
            image_differs(current, containers[n].name@, digests[n]@),
        )
    }
}

/// Which containers have a new image, given the digest of each one's image.
pub fn check_image_updates(
    containers: &Vec<Container>,
    current_hashes: &FxHashMap<String, String>,
    digests: &Vec<String>,
) -> (r: FxHashMap<String, bool>)
    requires
        digests@.len() <= containers@.len(),
    ensures
        stores::entries(r) == updates_of(stores::entries(*current_hashes), containers@, digests@),
{
    let mut r: FxHashMap<String, bool> = stores::map_new();
    let mut i: usize = 0;
    let ghost current = stores::entries(*current_hashes);
    assert(digests@.take(0) =~= Seq::empty());
    while i < digests.len()
        invariant
            i <= digests@.len() <= containers@.len(),
            current == stores::entries(*current_hashes),
            stores::entries(r) == updates_of(current, containers@, digests@.take(i as int)),
        decreases digests@.len() - i,
    {
        assert(digests@.take(i + 1).drop_last() =~= digests@.take(i as int));
        let differs: bool = match stores::map_get(current_hashes, containers[i].name.as_str()) {
            Some(h) => *h != digests[i],
            None => true,
        };
        let _ = stores::map_insert(&mut r, containers[i].name.clone(), differs);
        i = i + 1;
    }
    assert(digests@.take(i as int) =~= digests@);
    r
}

/// Some container has a new image.
pub fn any_update(updates: &FxHashMap<String, bool>) -> (r: bool)
    ensures
        r == exists|k: Seq<char>| #[trigger] stores::entries(*updates).contains_key(k) && stores::entries(*updates)[k],
{
    let keys: Vec<String> = stores::map_keys(updates);
    let ghost texts = keys@.map_values(|s: String| s@);
    let ghost held = stores::entries(*updates);
    let mut i: usize = 0;
    while i < keys.len()
        invariant
            i <= keys@.len(),
            held == stores::entries(*updates),
            texts == keys@.map_values(|s: String| s@),
            forall|k: Seq<char>| held.contains_key(k) == texts.contains(k),
            forall|j: int| 0 <= j < i ==> !held[#[trigger] texts[j]],
        decreases keys@.len() - i,
    {
        assert(texts[i as int] == keys@[i as int]@);
        assert(texts.contains(texts[i as int]));
        if let Some(b) = stores::map_get(updates, keys[i].as_str()) {
            if *b {
                assert(held.contains_key(texts[i as int]) && held[texts[i as int]]);
                return true;
            }
        }
        i = i + 1;
    }
    proof {
        assert forall|k: Seq<char>| #[trigger] held.contains_key(k) implies !held[k] by {
            assert(texts.contains(k));
            let j = choose|j: int| 0 <= j < texts.len() && texts[j] == k;
            assert(!held[texts[j]]);
        }
    }
    false
}

/// A container whose image is the one on record needs no update; one that is not
/// on record does.
pub proof fn updates_follow_the_digests(current: Map<Seq<char>, String>, container: Seq<char>, digest: String)
    ensures
        !image_differs(current.insert(container, digest), container, digest@),
        !current.contains_key(container) ==> image_differs(current, container, digest@),
{
}

/// Only running containers are listed, each of them, in their order.
pub proof fn running_containers_are_listed(a: Seq<ListedContainer>, b: Seq<ListedContainer>, c: ListedContainer)
    ensures
        running(a + b) == running(a) + running(b),
        c.state matches Some(s) && s@ == "running"@ ==> running(seq![c]) == seq![info_of(c)],
        !(c.state matches Some(s) && s@ == "running"@) ==> running(seq![c]) == Seq::<InfoFacts>::empty(),
        running(Seq::empty()) == Seq::<InfoFacts>::empty(),
    decreases b.len(),
{
    assert(running(Seq::empty()) =~= Seq::<InfoFacts>::empty());
    assert(seq![c].drop_last() =~= Seq::empty());
    assert(seq![c].last() == c);
    assert(running(seq![c]) =~= (if is_running(c) {
        seq![info_of(c)]
    } else {
        Seq::empty()
    }));
    if b.len() == 0 {
        assert(a + b =~= a);
        assert(running(a) + running(b) =~= running(a));
    } else {
        assert((a + b).drop_last() =~= a + b.drop_last());
        assert((a + b).last() == b.last());
        running_containers_are_listed(a, b.drop_last(), c);
        assert(running(a + b) =~= running(a) + running(b));
    }
}

/// A container is listed under its first name, without the slashes before it, with its
/// state, its id, and its first port; with zero and empty texts for what is missing.
pub proof fn containers_are_listed_by_their_first_name(c: ListedContainer)
    ensures
        c.id matches Some(t) ==> info_of(c).id == t@,
        c.state matches Some(t) ==> info_of(c).state == t@,
        c.names matches Some(n) && n@.len() > 0 ==> {
            &&& info_of(c).name.len() > 0 ==> info_of(c).name[0] != '/'
            &&& exists|k: int|
                0 <= k <= c.names->0@[0]@.len() && info_of(c).name == #[trigger] c.names->0@[0]@.skip(k) && forall|
                    i: int,
                | 0 <= i < k ==> #[trigger] c.names->0@[0]@[i] == '/'
        },
        c.names is None || c.names->0@.len() == 0 ==> info_of(c).name.len() == 0,
        c.ports matches Some(p) && p@.len() > 0 && p@[0] is Some ==> info_of(c).port == c.ports->0@[0]->0,
        c.ports is None || c.ports->0@.len() == 0 || c.ports->0@[0] is None ==> info_of(c).port == 0,
{
    if c.names is Some && c.names->0@.len() > 0 {
        let k = lemma_slashes(c.names->0@[0]@);
        assert(info_of(c).name == c.names->0@[0]@.skip(k));
    }
}

/// Only leading slashes go.
proof fn lemma_slashes(s: Seq<char>) -> (k: int)
    ensures
        0 <= k <= s.len(),
        without_slashes(s) == s.skip(k),
        forall|i: int| 0 <= i < k ==> #[trigger] s[i] == '/',
        without_slashes(s).len() > 0 ==> without_slashes(s)[0] != '/',
    decreases s.len(),
{
    if s.len() > 0 && s[0] == '/' {
        let k = lemma_slashes(s.skip(1));
        assert(s.skip(1).skip(k) =~= s.skip(k + 1));
        assert forall|i: int| 0 <= i < k + 1 implies #[trigger] s[i] == '/' by {
            if i > 0 {
                assert(s.skip(1)[i - 1] == s[i]);
            }
        }
        k + 1
    } else {
        assert(s.skip(0) =~= s);
        0
    }
}

/// An image counts as new exactly where none is on record for the container, or
/// another one is.
pub proof fn images_are_new_where_they_differ(
    current: Map<Seq<char>, String>,
    containers: Seq<Container>,
    digests: Seq<String>,
    i: int,
)
    requires
        digests.len() <= containers.len(),
        0 <= i < digests.len(),
        forall|j: int| i < j < digests.len() ==> (#[trigger] containers[j]).name@ != containers[i].name@,
    ensures
        ({
            let name = containers[i].name@;
            let updates = updates_of(current, containers, digests);
            &&& updates.contains_key(name)
            &&& updates[name] <==> !(current.contains_key(name) && current[name]@ == digests[i]@)
        }),
    decreases digests.len(),
{
    let n = digests.len() - 1;
    if i < n {
        assert(containers[n].name@ != containers[i].name@);
        let rest = digests.drop_last();
        assert forall|j: int| i < j < rest.len() implies (#[trigger] containers[j]).name@ != containers[i].name@ by {}
        images_are_new_where_they_differ(current, containers, rest, i);
    }
}

/// Updates are told of the containers alone for which there is a digest.
pub proof fn updates_are_told_of_the_containers(
    current: Map<Seq<char>, String>,
    containers: Seq<Container>,
    digests: Seq<String>,
    name: Seq<char>,
)
    requires
        digests.len() <= containers.len(),
    ensures
        updates_of(current, containers, digests).contains_key(name) <==> exists|i: int|
            0 <= i < digests.len() && (#[trigger] containers[i]).name@ == name,
    decreases digests.len(),
{
    if digests.len() > 0 {
        updates_are_told_of_the_containers(current, containers, digests.drop_last(), name);
    }
}

/// A container port is mapped to a host port where both can be read: a container port
/// by the number before the slash. A later mapping of the same container port replaces
/// an earlier one, and mappings of other ports are left alone.
pub proof fn published_ports_are_mapped(m: Map<u16, u16>, port: Seq<char>, hosts: Seq<Option<String>>, other: u16)
    ensures
        port_number(port) is None ==> with_host_ports(m, port, hosts) == m,
        port_number(port) matches Some(c) ==> {
            &&& other != c as u16 ==> with_host_ports(m, port, hosts).contains_key(other) == m.contains_key(other)
            &&& other != c as u16 ==> with_host_ports(m, port, hosts)[other] == m[other]
            &&& hosts.len() > 0 && (hosts.last() matches Some(h) && text::unsigned_value(h@, 65535) is Some)
                ==> with_host_ports(m, port, hosts).contains_key(c as u16) && with_host_ports(m, port, hosts)[c as u16]
                == text::unsigned_value(hosts.last()->0@, 65535)->0
        },
        hosts.len() == 0 ==> with_host_ports(m, port, hosts) == m,
    decreases hosts.len(),
{
    if hosts.len() > 0 {
        published_ports_are_mapped(m, port, hosts.drop_last(), other);
    }
}

/// Published ports are mapped one after the other.
pub proof fn mappings_add_up(ports: Seq<PublishedPort>, p: PublishedPort)
    ensures
        p.host_ports is None ==> mappings(ports.push(p)) == mappings(ports),
        p.host_ports matches Some(h) ==> mappings(ports.push(p)) == with_host_ports(mappings(ports), p.port@, h@),
        mappings(Seq::empty()) == Map::<u16, u16>::empty(),
{
    assert(ports.push(p).drop_last() =~= ports);
}

} // verus!
