//! Names of containers, networks and proxies.

use crate::config::utils;
use crate::container::Container;
use crate::container::ContainerError;
use crate::container::ContainerInfo;
use crate::container::MAX_CONTAINER_NAME_LENGTH;
use crate::container::MAX_SERVICE_NAME_LENGTH;
use crate::pattern;
use crate::text;
use vstd::prelude::*;
use vstd::string::*;

verus! {

/// The length of a text in bytes of UTF-8.
pub open spec fn byte_len(s: Seq<char>) -> usize {
    vstd::utf8::encode_utf8(s).len() as usize
}

/// The name that a container gets, or why it gets none.
pub open spec fn generated_name(
    service: Seq<char>,
    pod: u8,
    container: Seq<char>,
    uuid: Seq<char>,
) -> Result<Seq<char>, ContainerError> {
    if byte_len(service) > MAX_SERVICE_NAME_LENGTH {
        Err(ContainerError::ServiceNameTooLong(MAX_SERVICE_NAME_LENGTH))
    } else if byte_len(container) > MAX_CONTAINER_NAME_LENGTH {
        Err(ContainerError::ContainerNameTooLong(MAX_CONTAINER_NAME_LENGTH))
    } else {
        Ok(utils::runtime_name(service, pod as nat, container, uuid))
    }
}

/// `r` is the exact result `s`.
pub open spec fn is_name(r: Result<String, ContainerError>, s: Result<Seq<char>, ContainerError>) -> bool {
    match r {
        Ok(n) => s == Ok::<Seq<char>, ContainerError>(n@),
        Err(e) => s == Err::<Seq<char>, ContainerError>(e),
    }
}

impl ContainerError {
    /// The text for the error.
    pub fn message(&self) -> (r: String)
        ensures
            r@ == (match *self {
                ContainerError::ServiceNameTooLong(n) => {
                    "Service name exceeds maximum length of "@ + text::decimal(n as nat) + " characters"@
                },
                ContainerError::ContainerNameTooLong(n) => {
                    "Container name exceeds maximum length of "@ + text::decimal(n as nat) + " characters"@
                },
            }),
    {
        match self {
            ContainerError::ServiceNameTooLong(n) => {
                let number: String = text::decimal_of(*n as u128);
                "Service name exceeds maximum length of ".to_owned().concat(number.as_str()).concat(" characters")
            },
            ContainerError::ContainerNameTooLong(n) => {
                let number: String = text::decimal_of(*n as u128);
                "Container name exceeds maximum length of ".to_owned().concat(number.as_str()).concat(" characters")
            },
        }
    }
}

impl Container {
    /// The name of this container in a pod: service, pod number, container and
    /// UUID, in this order.
    pub fn generate_runtime_name(&self, service_name: &str, pod_number: u8, uuid: &str) -> (r: Result<
        String,
        ContainerError,
    >)
        ensures
            is_name(r, generated_name(service_name@, pod_number, self.name@, uuid@)),
    {
        if service_name.len() > MAX_SERVICE_NAME_LENGTH {
            return Err(ContainerError::ServiceNameTooLong(MAX_SERVICE_NAME_LENGTH));
        }
        if self.name.as_str().len() > MAX_CONTAINER_NAME_LENGTH {
            return Err(ContainerError::ContainerNameTooLong(MAX_CONTAINER_NAME_LENGTH));
        }
        let number: String = text::decimal_of(pod_number as u128);
        Ok(
            service_name.to_owned().concat("__").concat(number.as_str()).concat("__").concat(
                self.name.as_str(),
            ).concat("__").concat(uuid),
        )
    }
}

/// A hexadecimal numeral has its width and holds no underscore.
proof fn lemma_hex(n: nat, width: nat)
    ensures
        utils::hex(n, width).len() == width,
        forall|i: int| 0 <= i < width ==> #[trigger] utils::hex(n, width)[i] != '_',
    decreases width,
{
    if width > 0 {
        lemma_hex(n / 16, (width - 1) as nat);
        let rest = utils::hex(n / 16, (width - 1) as nat);
        assert(utils::hex_char(n % 16) != '_');
        assert forall|i: int| 0 <= i < width implies #[trigger] utils::hex(n, width)[i] != '_' by {
            if i < width - 1 {
                assert(utils::hex(n, width)[i] == rest[i]);
            }
        }
    }
}

/// A hyphenated UUID holds no underscore.
pub proof fn lemma_uuid_has_no_separator(u: u128)
    ensures
        forall|j: int| !text::occurs_at(utils::hyphenated(u), "__"@, j),
{
    reveal_strlit("__");
    let h = utils::hex(u as nat, 32);
    lemma_hex(u as nat, 32);
    let s = utils::hyphenated(u);
    assert forall|i: int| 0 <= i < s.len() implies #[trigger] s[i] != '_' by {
        if i < 8 {
            assert(s[i] == h[i]);
        } else if i == 8 {
        } else if i < 13 {
            assert(s[i] == h[i - 1]);
        } else if i == 13 {
        } else if i < 18 {
            assert(s[i] == h[i - 2]);
        } else if i == 18 {
        } else if i < 23 {
            assert(s[i] == h[i - 3]);
        } else if i == 23 {
        } else {
            assert(s[i] == h[i - 4]);
        }
    }
    assert forall|j: int| !text::occurs_at(s, "__"@, j) by {
        if text::occurs_at(s, "__"@, j) {
            assert(s.subrange(j, j + 2)[0] == '_');
            assert(s[j] == '_');
        }
    }
}

/// The name of a container in the pod with the given UUID. Reading the name back
/// gives what it was made of.
pub fn pod_container_name(container: &Container, service_name: &str, pod_number: u8, uuid: u128) -> (r: Result<
    String,
    ContainerError,
>)
    ensures
        is_name(r, generated_name(service_name@, pod_number, container.name@, utils::hyphenated(uuid))),
        utils::separable(service_name@) && utils::separable(container.name@) && r is Ok ==> utils::parsed_name(
            r->Ok_0@,
        ) == Ok::<utils::NameFacts, utils::ContainerNameError>(
            utils::NameFacts {
                service_name: service_name@,
                pod_number: pod_number as nat,
                container_name: container.name@,
                uuid,
            },
        ),
{
    let id: String = utils::uuid_text(uuid);
    proof {
        lemma_uuid_has_no_separator(uuid);
        if utils::separable(service_name@) && utils::separable(container.name@) {
            utils::names_come_apart(service_name@, pod_number, container.name@, id@);
        }
    }
    container.generate_runtime_name(service_name, pod_number, id.as_str())
}

/// Valid names of at most sixty characters always make a container name.
pub proof fn short_valid_names_make_a_name(service: Seq<char>, pod: u8, container: Seq<char>, uuid: Seq<char>)
    requires
        pattern::dns_label(service),
        pattern::dns_label(container),
        service.len() <= 60,
        container.len() <= 60,
    ensures
        generated_name(service, pod, container, uuid) == Ok::<Seq<char>, ContainerError>(
            utils::runtime_name(service, pod as nat, container, uuid),
        ),
{
    lemma_label_bytes(service);
    lemma_label_bytes(container);
}

proof fn lemma_label_bytes(s: Seq<char>)
    requires
        pattern::dns_label(s),
    ensures
        byte_len(s) == s.len(),
{
    assert forall|i: int| 0 <= i < s.len() implies '\0' <= #[trigger] s[i] <= '\u{7f}' by {
        assert(pattern::lower_alphanumeric(s[i]) || s[i] == '-');
    }
    vstd::utf8::is_ascii_chars_encode_utf8(s);
}

/// The network of a pod that has one of its own: it is created, recorded and
/// removed under this name.
pub open spec fn pod_network(service: Seq<char>, uuid: u128) -> Seq<char> {
    service + "__"@ + utils::hyphenated(uuid)
}

/// The network of a pod that has one of its own.
pub fn pod_network_name(service_name: &str, uuid: u128) -> (r: String)
    ensures
        r@ == pod_network(service_name@, uuid),
{
    let id: String = utils::uuid_text(uuid);
    service_name.to_owned().concat("__").concat(id.as_str())
}

/// The key of the proxy of a service on a port: the proxy runs under it, and
/// endpoints come and go under it.
pub open spec fn proxy_key(service: Seq<char>, node_port: u16) -> Seq<char> {
    service + "__"@ + text::decimal(node_port as nat)
}

/// The key of the proxy of a service on a port.
pub fn proxy_key_of(service_name: &str, node_port: u16) -> (r: String)
    ensures
        r@ == proxy_key(service_name@, node_port),
{
    let number: String = text::decimal_of(node_port as u128);
    service_name.to_owned().concat("__").concat(number.as_str())
}

/// The address of a port on a host.
pub open spec fn address(ip: Seq<char>, port: u16) -> Seq<char> {
    ip + ":"@ + text::decimal(port as nat)
}

/// The address of a port on a host.
pub fn address_of(ip: &str, port: u16) -> (r: String)
    ensures
        r@ == address(ip@, port),
{
    let number: String = text::decimal_of(port as u128);
    ip.to_owned().concat(":").concat(number.as_str())
}

/// What stands before the first separator; all of it where there is none.
pub open spec fn service_part(name: Seq<char>) -> Seq<char> {
    match text::first_occurrence(name, "__"@, 0) {
        Some(i) => name.take(i),
        None => name,
    }
}

/// What stands before the first separator; all of it where there is none.
pub fn service_part_of(name: &str) -> (r: String)
    ensures
        r@ == service_part(name@),
{
    let chars: Vec<char> = text::chars_of(name);
    proof {
        text::lemma_first_occurrence(name@, "__"@, 0);
    }
    match text::find_from(&chars, &text::chars_of("__"), 0) {
        Some(i) => {
            assert(name@.subrange(0, i as int) =~= name@.take(i as int));
            name.substring_char(0, i).to_owned()
        },
        None => name.to_owned(),
    }
}

/// The service can be read off its proxy keys, and two proxies share a key only
/// if they are of one service and on one port.
pub proof fn proxy_keys_tell_service_and_port(a: Seq<char>, p: u16, b: Seq<char>, q: u16)
    requires
        utils::separable(a),
        utils::separable(b),
    ensures
        service_part(proxy_key(a, p)) == a,
        proxy_key(a, p) == proxy_key(b, q) ==> a == b && p == q,
{
    lemma_service_part(a, text::decimal(p as nat));
    lemma_service_part(b, text::decimal(q as nat));
    if proxy_key(a, p) == proxy_key(b, q) {
        reveal_strlit("__");
        let s = proxy_key(a, p);
        assert(s.skip(a.len() as int + 2) =~= text::decimal(p as nat));
        assert(s.skip(b.len() as int + 2) =~= text::decimal(q as nat));
        text::numerals_are_distinct(p as nat, q as nat);
    }
}

proof fn lemma_service_part(head: Seq<char>, rest: Seq<char>)
    requires
        utils::separable(head),
    ensures
        service_part(head + "__"@ + rest) == head,
{
    reveal_strlit("__");
    let sep = "__"@;
    let s = head + sep + rest;
    assert forall|j: int| 0 <= j < head.len() implies !text::occurs_at(s, sep, j) by {
        if text::occurs_at(s, sep, j) {
            assert(s.subrange(j, j + 2)[0] == '_');
            assert(s.subrange(j, j + 2)[1] == '_');
            if j + 2 <= head.len() {
                assert(head.subrange(j, j + 2) =~= sep);
                assert(text::occurs_at(head, sep, j));
            } else {
                assert(head.last() == s[j]);
            }
        }
    }
    assert(s.subrange(head.len() as int, head.len() as int + 2) =~= sep);
    text::lemma_least_is_first(s, sep, 0, head.len() as int);
    assert(s.take(head.len() as int) =~= head);
}

/// The greatest of some pod numbers.
pub open spec fn greatest(pods: Seq<u8>) -> int
    decreases pods.len(),
{
    if pods.len() == 0 {
        -1
    } else {
        let rest = greatest(pods.drop_last());
        if pods.last() > rest {
            pods.last() as int
        } else {
            rest
        }
    }
}

/// The greatest is above none and, of any at all, one of them.
pub proof fn lemma_greatest(pods: Seq<u8>)
    ensures
        forall|i: int| 0 <= i < pods.len() ==> #[trigger] pods[i] <= greatest(pods),
        pods.len() > 0 ==> exists|i: int| 0 <= i < pods.len() && #[trigger] pods[i] == greatest(pods),
        pods.len() == 0 ==> greatest(pods) == -1,
    decreases pods.len(),
{
    if pods.len() > 0 {
        let rest = pods.drop_last();
        lemma_greatest(rest);
        assert forall|i: int| 0 <= i < pods.len() implies #[trigger] pods[i] <= greatest(pods) by {
            if i < rest.len() {
                assert(rest[i] == pods[i]);
            }
        }
        assert(pods[pods.len() - 1] == pods.last());
        if rest.len() > 0 {
            let i = choose|i: int| 0 <= i < rest.len() && #[trigger] rest[i] == greatest(rest);
            assert(pods[i] == rest[i]);
        }
    }
}

/// The pod numbers in the names that are names of containers, in order.
pub open spec fn pods_in_use(names: Seq<ContainerInfo>) -> Seq<u8>
    decreases names.len(),
{
    if names.len() == 0 {
        Seq::empty()
    } else {
        let rest = pods_in_use(names.drop_last());
        match utils::parsed_name(names.last().name@) {
            Ok(p) => rest.push(p.pod_number as u8),
            Err(_) => rest,
        }
    }
}

/// The pod numbers in the names that are names of containers.
pub fn pod_numbers(listed: &Vec<ContainerInfo>) -> (r: Vec<u8>)
    ensures
        r@ == pods_in_use(listed@),
{
    let mut r: Vec<u8> = Vec::new();
    let mut i: usize = 0;
    assert(listed@.take(0) =~= Seq::empty());
    while i < listed.len()
        invariant
            i <= listed@.len(),
            r@ == pods_in_use(listed@.take(i as int)),
        decreases listed@.len() - i,
    {
        assert(listed@.take(i + 1).drop_last() =~= listed@.take(i as int));
        if let Ok(parts) = utils::parse_container_name(listed[i].name.as_str()) {
            r.push(parts.pod_number);
        }
        i = i + 1;
    }
    assert(listed@.take(i as int) =~= listed@);
    r
}

/// The number for the next pod: one more than the greatest in use, zero for the
/// first.
pub fn next_pod_number(pods: &Vec<u8>) -> (r: u8)
    requires
        greatest(pods@) < 255,
    ensures
        r == greatest(pods@) + 1,
{
    let mut next: u8 = 0;
    let mut i: usize = 0;
    assert(pods@.take(0) =~= Seq::empty());
    assert(pods@.take(pods@.len() as int) =~= pods@);
    proof {
        lemma_greatest(pods@);
    }
    while i < pods.len()
        invariant
            i <= pods@.len(),
            forall|j: int| 0 <= j < pods@.len() ==> #[trigger] pods@[j] <= greatest(pods@),
            greatest(pods@) < 255,
            next == greatest(pods@.take(i as int)) + 1,
        decreases pods@.len() - i,
    {
        assert(pods@.take(i + 1).drop_last() =~= pods@.take(i as int));
        assert(pods@.take(i + 1).last() == pods@[i as int]);
        if pods[i] >= next {
            next = pods[i] + 1;
        }
        i = i + 1;
    }
    assert(pods@.take(i as int) =~= pods@);
    next
}

/// The number for the next pod of a service, from the containers that the
/// runtime lists; zero where it lists none, or cannot. Nothing where the numbers
/// are used up.
pub fn get_next_pod_number(listing: &Option<Vec<ContainerInfo>>) -> (r: Option<u8>)
    ensures
        match *listing {
            Some(l) => {
                &&& r is None <==> greatest(pods_in_use(l@)) == 255
                &&& r matches Some(n) ==> n == greatest(pods_in_use(l@)) + 1
            },
            None => r == Some(0u8),
        },
        r == next_number(
            match *listing {
                Some(l) => Some(l@),
                None => None,
            },
        ),
{
    match listing {
        Some(l) => {
            let pods: Vec<u8> = pod_numbers(l);
            proof {
                lemma_greatest(pods@);
            }
            let mut i: usize = 0;
            while i < pods.len()
                invariant
                    i <= pods@.len(),
                    pods@ == pods_in_use(l@),
                    *listing == Some(*l),
                    forall|j: int| 0 <= j < pods@.len() ==> #[trigger] pods@[j] <= greatest(pods@),
                    greatest(pods@) <= 255,
                    forall|j: int| 0 <= j < i ==> #[trigger] pods@[j] < 255,
                decreases pods@.len() - i,
            {
                if pods[i] == 255 {
                    assert(pods@[i as int] <= greatest(pods@));
                    return None;
                }
                i = i + 1;
            }
            Some(next_pod_number(&pods))
        },
        None => Some(0),
    }
}

/// The next pod number is not in use.
pub proof fn next_pod_number_is_free(pods: Seq<u8>, i: int)
    requires
        0 <= i < pods.len(),
    ensures
        pods[i] != greatest(pods) + 1,
{
    lemma_greatest(pods);
}

/// A container runs under the name of its service, the number of its pod, its own name
/// and the UUID, with a double underscore between each; exactly where neither name is
/// longer than sixty bytes. A long service name is told first.
pub proof fn names_are_made_of_four_parts(service: Seq<char>, pod: u8, container: Seq<char>, uuid: Seq<char>)
    ensures
        byte_len(service) <= 60 && byte_len(container) <= 60 ==> generated_name(service, pod, container, uuid) == Ok::<
            Seq<char>,
            ContainerError,
        >(service + "__"@ + text::decimal(pod as nat) + "__"@ + container + "__"@ + uuid),
        byte_len(service) > 60 ==> generated_name(service, pod, container, uuid) == Err::<Seq<char>, ContainerError>(
            ContainerError::ServiceNameTooLong(60),
        ),
        byte_len(service) <= 60 && byte_len(container) > 60 ==> generated_name(service, pod, container, uuid) == Err::<
            Seq<char>,
            ContainerError,
        >(ContainerError::ContainerNameTooLong(60)),
{
}

/// The pod numbers in use are those in the names of the listed containers, as far as
/// these can be read.
pub proof fn numbers_in_use_stand_in_the_names(names: Seq<ContainerInfo>, n: u8)
    ensures
        pods_in_use(names).contains(n) <==> exists|i: int|
            0 <= i < names.len() && utils::parsed_name((#[trigger] names[i]).name@) is Ok && utils::parsed_name(
                names[i].name@,
            )->Ok_0.pod_number as u8 == n,
    decreases names.len(),
{
    if names.len() > 0 {
        let rest = names.drop_last();
        numbers_in_use_stand_in_the_names(rest, n);
        let (all, before) = (pods_in_use(names), pods_in_use(rest));
        let last = names.len() - 1;
        if before.contains(n) {
            let j = choose|j: int| 0 <= j < before.len() && before[j] == n;
            assert(all[j] == n);
            let i = choose|i: int|
                0 <= i < rest.len() && utils::parsed_name((#[trigger] rest[i]).name@) is Ok && utils::parsed_name(
                    rest[i].name@,
                )->Ok_0.pod_number as u8 == n;
            assert(names[i] == rest[i]);
        }
        if utils::parsed_name(names[last].name@) is Ok {
            assert(all[before.len() as int] == utils::parsed_name(names[last].name@)->Ok_0.pod_number as u8);
        }
        if all.contains(n) && !before.contains(n) {
            let j = choose|j: int| 0 <= j < all.len() && all[j] == n;
            if j < before.len() {
                assert(before[j] == n);
            }
            assert(utils::parsed_name(names[last].name@) is Ok);
        }
        if exists|i: int|
            0 <= i < names.len() && utils::parsed_name((#[trigger] names[i]).name@) is Ok && utils::parsed_name(
                names[i].name@,
            )->Ok_0.pod_number as u8 == n {
            let i = choose|i: int|
                0 <= i < names.len() && utils::parsed_name((#[trigger] names[i]).name@) is Ok && utils::parsed_name(
                    names[i].name@,
                )->Ok_0.pod_number as u8 == n;
            if i < rest.len() {
                assert(rest[i] == names[i]);
            }
        }
    }
}

/// The next pod number is one more than the greatest in use, and zero where none is.
pub proof fn next_pod_number_follows_the_greatest(pods: Seq<u8>, next: int)
    requires
        next == greatest(pods) + 1,
    ensures
        pods.len() == 0 ==> next == 0,
        pods.len() > 0 ==> exists|i: int| 0 <= i < pods.len() && #[trigger] pods[i] == next - 1,
        forall|i: int| 0 <= i < pods.len() ==> #[trigger] pods[i] < next,
{
    lemma_greatest(pods);
}

/// What stands before the first double underscore of a name is its service: it is the
/// beginning of the name, holds no double underscore, and is all of the name or is
/// followed by one.
pub proof fn services_stand_before_the_separator(name: Seq<char>)
    ensures
        ({
            let s = service_part(name);
            &&& s.len() <= name.len()
            &&& s == name.take(s.len() as int)
            &&& forall|j: int| !#[trigger] text::occurs_at(s, "__"@, j)
            &&& s == name || text::occurs_at(name, "__"@, s.len() as int)
        }),
{
    reveal_strlit("__");
    text::lemma_first_occurrence(name, "__"@, 0);
    let s = service_part(name);
    match text::first_occurrence(name, "__"@, 0) {
        Some(i) => {
            assert forall|j: int| !#[trigger] text::occurs_at(s, "__"@, j) by {
                if text::occurs_at(s, "__"@, j) {
                    assert(name.subrange(j, j + 2) =~= s.subrange(j, j + 2));
                    assert(text::occurs_at(name, "__"@, j));
                }
            }
        },
        None => {
            assert(name.take(name.len() as int) =~= name);
            assert forall|j: int| !#[trigger] text::occurs_at(s, "__"@, j) by {
                if text::occurs_at(s, "__"@, j) {
                    assert(0 <= j);
                }
            }
        },
    }
}

/// The number for the next pod, given the containers that are listed, if they can be; nothing
/// where there is none left.
pub open spec fn next_number(listing: Option<Seq<ContainerInfo>>) -> Option<u8> {
    match listing {
        Some(l) => if greatest(pods_in_use(l)) == 255 {
            None
        } else {
            Some((greatest(pods_in_use(l)) + 1) as u8)
        },
        None => Some(0u8),
    }
}

/// The number of a new pod is above that of every listed pod, and the next one after the
/// greatest; zero where none is listed or nothing can be. There is none only where the last
/// number is taken.
pub proof fn new_pods_get_the_next_number(list: Seq<ContainerInfo>, i: int)
    ensures
        next_number(None) == Some(0u8),
        pods_in_use(list).len() == 0 ==> next_number(Some(list)) == Some(0u8),
        0 <= i < list.len() && utils::parsed_name(list[i].name@) is Ok ==> (next_number(Some(list)) matches Some(n)
            ==> n > utils::parsed_name(list[i].name@)->Ok_0.pod_number as u8),
        next_number(Some(list)) matches Some(n) && n > 0 ==> pods_in_use(list).contains(
            (next_number(Some(list))->0 - 1) as u8,
        ),
        next_number(Some(list)) is None ==> pods_in_use(list).contains(255u8),
{
    let pods = pods_in_use(list);
    lemma_greatest(pods);
    lemma_greatest_fits(pods);
    if 0 <= i < list.len() && utils::parsed_name(list[i].name@) is Ok {
        let n = utils::parsed_name(list[i].name@)->Ok_0.pod_number as u8;
        numbers_in_use_stand_in_the_names(list, n);
        assert(pods.contains(n));
        let j = choose|j: int| 0 <= j < pods.len() && pods[j] == n;
        assert(pods[j] <= greatest(pods));
    }
    if pods.len() > 0 {
        let j = choose|j: int| 0 <= j < pods.len() && #[trigger] pods[j] == greatest(pods);
        assert(pods.contains(pods[j]));
    }
}

proof fn lemma_greatest_fits(pods: Seq<u8>)
    ensures
        -1 <= greatest(pods) <= 255,
    decreases pods.len(),
{
    if pods.len() > 0 {
        lemma_greatest_fits(pods.drop_last());
    }
}

} // verus!
