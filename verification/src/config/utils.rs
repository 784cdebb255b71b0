//! Container names and the look-up of definitions.

use crate::config::store;
use crate::config::store::ConfigStore;
use crate::config::store::StoredConfig;
use crate::text;
use std::sync::Arc;
use vstd::prelude::*;
use vstd::string::*;

verus! {

/// What the name of a container tells.
#[derive(Debug)]
pub struct ContainerNameParts {
    pub service_name: String,
    pub pod_number: u8,
    pub container_name: String,
    pub uuid: u128,
}

/// Why a text is not the name of a container.
#[derive(Clone, Copy, PartialEq, Eq, Structural, Debug)]
pub enum ContainerNameError {
    /// Not of the form `service__pod-number__container-name__uuid`.
    WrongPattern,
    /// The pod number is no number below 256.
    InvalidPodNumber,
    /// The last part is no UUID.
    InvalidUuid,
}

/// What `Uuid::parse_str` reads from a text, as a number; nothing where it fails.
pub uninterp spec fn uuid_in(s: Seq<char>) -> Option<u128>;

/// `Uuid::parse_str`: depends on the text alone.
#[verifier::external_body]
pub(crate) fn parse_uuid(s: &str) -> (r: Option<u128>)
    ensures
        r == uuid_in(s@),
{
    uuid::Uuid::parse_str(s).ok().map(|u| u.as_u128())
}

/// The lower-case hexadecimal digit for a value below sixteen.
pub open spec fn hex_char(d: nat) -> char {
    if d < 10 {
        text::digit_char(d)
    } else {
        ((87 + d) as u8) as char
    }
}

/// `n` in lower-case hexadecimal, padded with zeros to `width` digits.
pub open spec fn hex(n: nat, width: nat) -> Seq<char>
    decreases width,
{
    if width == 0 {
        Seq::empty()
    } else {
        hex(n / 16, (width - 1) as nat).push(hex_char(n % 16))
    }
}

/// A UUID in its hyphenated form: 32 digits in groups of 8, 4, 4, 4 and 12.
pub open spec fn hyphenated(u: u128) -> Seq<char> {
    let h = hex(u as nat, 32);
    h.subrange(0, 8) + seq!['-'] + h.subrange(8, 12) + seq!['-'] + h.subrange(12, 16) + seq!['-'] + h.subrange(16, 20)
        + seq!['-'] + h.subrange(20, 32)
}

/// `Uuid::to_string`: the hyphenated form, which `Uuid::parse_str` reads back.
#[verifier::external_body]
pub(crate) fn uuid_text(u: u128) -> (r: String)
    ensures
        r@ == hyphenated(u),
        uuid_in(r@) == Some(u),
{
    uuid::Uuid::from_u128(u).to_string()
}

/// The UUID is of the random kind: version 4, of the common variant.
pub open spec fn random_uuid(u: u128) -> bool {
    u / 0x1000_0000_0000_0000_0000 % 16 == 4 && u / 0x4000_0000_0000_0000 % 4 == 2
}

/// `Uuid::new_v4`: a random UUID, of which only its kind can be foretold.
#[verifier::external_body]
pub(crate) fn new_uuid() -> (r: u128)
    ensures
        random_uuid(r),
{
    uuid::Uuid::new_v4().as_u128()
}

/// What the name of a container tells, in terms of texts.
pub struct NameFacts {
    pub service_name: Seq<char>,
    pub pod_number: nat,
    pub container_name: Seq<char>,
    pub uuid: u128,
}

impl View for ContainerNameParts {
    type V = NameFacts;

    open spec fn view(&self) -> NameFacts {
        NameFacts {
            service_name: self.service_name@,
            pod_number: self.pod_number as nat,
            container_name: self.container_name@,
            uuid: self.uuid,
        }
    }
}

/// What reading a container name gives, where `uuid` is what its last part
/// holds.
pub open spec fn name_parts(
    parts: Seq<Seq<char>>,
    uuid: Option<u128>,
) -> Result<NameFacts, ContainerNameError> {
    if parts.len() != 4 {
        Err(ContainerNameError::WrongPattern)
    } else if text::unsigned_value(parts[1], 255) is None {
        Err(ContainerNameError::InvalidPodNumber)
    } else if uuid is None {
        Err(ContainerNameError::InvalidUuid)
    } else {
        Ok(
            NameFacts {
                service_name: parts[0],
                pod_number: text::unsigned_value(parts[1], 255)->0,
                container_name: parts[2],
                uuid: uuid->0,
            },
        )
    }
}

/// What reading a container name gives.
pub open spec fn parsed_name(name: Seq<char>) -> Result<NameFacts, ContainerNameError> {
    let parts = text::split(name, "__"@);
    name_parts(parts, uuid_in(parts[3]))
}

/// The name of a container.
pub open spec fn runtime_name(service: Seq<char>, pod: nat, container: Seq<char>, uuid: Seq<char>) -> Seq<char> {
    service + "__"@ + text::decimal(pod) + "__"@ + container + "__"@ + uuid
}

/// Puts together what the parts of a container name tell, where `uuid` is what
/// the last part holds.
pub fn assemble_name_parts(parts: &Vec<String>, uuid: Option<u128>) -> (r: Result<
    ContainerNameParts,
    ContainerNameError,
>)
    ensures
        ({
            let texts = parts@.map_values(|p: String| p@);
            match r {
                Ok(p) => name_parts(texts, uuid) == Ok::<NameFacts, ContainerNameError>(p@),
                Err(e) => name_parts(texts, uuid) == Err::<NameFacts, ContainerNameError>(e),
            }
        }),
{
    if parts.len() != 4 {
        return Err(ContainerNameError::WrongPattern);
    }
    let pod_number: u8 = match text::parse_unsigned(parts[1].as_str(), 255) {
        Some(n) => n as u8,
        None => {
            return Err(ContainerNameError::InvalidPodNumber);
        },
    };
    match uuid {
        Some(u) => Ok(
            ContainerNameParts {
                service_name: parts[0].clone(),
                pod_number,
                container_name: parts[2].clone(),
                uuid: u,
            },
        ),
        None => Err(ContainerNameError::InvalidUuid),
    }
}

/// Reads a container name.
pub fn parse_container_name(container_name: &str) -> (r: Result<ContainerNameParts, ContainerNameError>)
    ensures
        match r {
            Ok(p) => parsed_name(container_name@) == Ok::<NameFacts, ContainerNameError>(p@),
            Err(e) => parsed_name(container_name@) == Err::<NameFacts, ContainerNameError>(e),
        },
{
    proof {
        reveal_strlit("__");
    }
    let parts: Vec<String> = text::split_on(container_name, "__");
    if parts.len() != 4 {
        return Err(ContainerNameError::WrongPattern);
    }
    let uuid: Option<u128> = parse_uuid(parts[3].as_str());
    assemble_name_parts(&parts, uuid)
}

/// The text does not hold the separator, nor end in half of one.
pub open spec fn separable(s: Seq<char>) -> bool {
    &&& forall|j: int| !text::occurs_at(s, "__"@, j)
    &&& s.len() > 0 ==> s.last() != '_'
}

/// A separator inside `head + "__" + rest` stands no earlier than the one after
/// a separable `head`.
proof fn lemma_head_is_clear(head: Seq<char>, rest: Seq<char>)
    requires
        separable(head),
    ensures
        text::split(head + "__"@ + rest, "__"@) == seq![head] + text::split(rest, "__"@),
{
    reveal_strlit("__");
    let sep = "__"@;
    let s = head + sep + rest;
    assert forall|j: int| 0 <= j < head.len() implies !text::occurs_at(s, sep, j) by {
        if text::occurs_at(s, sep, j) {
            assert(s.subrange(j, j + 2)[0] == '_');
            assert(s.subrange(j, j + 2)[1] == '_');
            if j + 2 <= head.len() {
                assert(head.subrange(j, j + 2) =~= sep);
                assert(text::occurs_at(head, sep, j));
            } else {
                assert(head.last() == s[j]);
            }
        }
    }
    text::lemma_split_head(head, sep, rest);
}

/// A name that was put together comes apart into the parts it was made of, where
/// the names in it neither hold the separator nor end in half of one, and the
/// UUID text holds no separator.
pub proof fn names_come_apart(service: Seq<char>, pod: u8, container: Seq<char>, uuid: Seq<char>)
    requires
        separable(service),
        separable(container),
        forall|j: int| !text::occurs_at(uuid, "__"@, j),
        uuid_in(uuid) is Some,
    ensures
        parsed_name(runtime_name(service, pod as nat, container, uuid)) == Ok::<NameFacts, ContainerNameError>(
            NameFacts {
                service_name: service,
                pod_number: pod as nat,
                container_name: container,
                uuid: uuid_in(uuid)->0,
            },
        ),
{
    reveal_strlit("__");
    let sep = "__"@;
    let number = text::decimal(pod as nat);
    text::lemma_decimal(pod as nat);
    assert(separable(number)) by {
        assert forall|j: int| !text::occurs_at(number, sep, j) by {
            if text::occurs_at(number, sep, j) {
                assert(number.subrange(j, j + 2)[0] == '_');
                assert(text::is_digit(number[j]));
            }
        }
        assert(text::is_digit(number[number.len() - 1]));
    }
    let tail2 = container + sep + uuid;
    let tail1 = number + sep + tail2;
    let name = runtime_name(service, pod as nat, container, uuid);
    assert(name =~= service + sep + tail1);
    lemma_head_is_clear(service, tail1);
    lemma_head_is_clear(number, tail2);
    lemma_head_is_clear(container, uuid);
    text::lemma_split_single(uuid, sep);
    let parts = text::split(name, sep);
    assert(parts =~= seq![service, number, container, uuid]);
    text::reading_a_numeral_gives_its_number(pod as nat, 255);
}

/// The definition that came from a path.
pub fn get_config_by_path(m: &ConfigStore, path: &str) -> (r: Option<Arc<StoredConfig>>)
    ensures
        r == (if store::stored(*m).contains_key(path@) { Some(store::stored(*m)[path@]) } else { None }),
{
    store::look_up(m, path)
}

/// `k` holds a definition of the service.
pub open spec fn defines(m: Map<Seq<char>, Arc<StoredConfig>>, k: Seq<char>, service: Seq<char>) -> bool {
    m.contains_key(k) && m[k].config.name@ == service
}

/// A definition of the service; where several define it, any one of them.
pub fn get_config_by_service(m: &ConfigStore, service_name: &str) -> (r: Option<Arc<StoredConfig>>)
    ensures
        r matches Some(c) ==> exists|k: Seq<char>| #[trigger]
            defines(store::stored(*m), k, service_name@) && store::stored(*m)[k] == c,
        r is None ==> forall|k: Seq<char>| !#[trigger] defines(store::stored(*m), k, service_name@),
{
    let entries: Vec<(String, Arc<StoredConfig>)> = store::all(m);
    let mut i: usize = 0;
    while i < entries.len()
        invariant
            i <= entries@.len(),
            store::lists(entries@, store::stored(*m)),
            forall|j: int| 0 <= j < i ==> (#[trigger] entries@[j]).1.config.name@ != service_name@,
        decreases entries@.len() - i,
    {
        if text::same(entries[i].1.config.name.as_str(), service_name) {
            let found: Arc<StoredConfig> = entries[i].1.clone();
            assert(defines(store::stored(*m), entries@[i as int].0@, service_name@));
            return Some(found);
        }
        i = i + 1;
    }
    None
}

/// The part of a path from the first mention of the configuration directory on;
/// nothing where a path is no text or the directory is not mentioned.
pub fn get_relative_config_path(full_path: Option<&str>, config_dir: Option<&str>) -> (r: Option<String>)
    ensures
        match (full_path, config_dir) {
            (Some(p), Some(d)) => match text::first_occurrence(p@, d@, 0) {
                Some(i) => r is Some && r->0@ == p@.skip(i),
                None => r is None,
            },
            _ => r is None,
        },
{
    let dir: &str = match config_dir {
        Some(d) => d,
        None => {
            return None;
        },
    };
    let path: &str = match full_path {
        Some(p) => p,
        None => {
            return None;
        },
    };
    let chars: Vec<char> = text::chars_of(path);
    proof {
        text::lemma_first_occurrence(path@, dir@, 0);
    }
    match text::find_from(&chars, &text::chars_of(dir), 0) {
        Some(pos) => {
            assert(path@.subrange(pos as int, path@.len() as int) =~= path@.skip(pos as int));
            Some(path.substring_char(pos, chars.len()).to_owned())
        },
        None => None,
    }
}

/// A name that can be read is made of what was read: the service, a numeral of the pod
/// number, the container and a text of the UUID, with a double underscore after each of
/// the first three. It has no more and no fewer parts.
pub proof fn read_names_are_made_of_their_parts(name: Seq<char>) -> (r: (Seq<char>, Seq<char>))
    requires
        parsed_name(name) is Ok,
    ensures
        ({
            let p = parsed_name(name)->Ok_0;
            let (number, uuid) = r;
            &&& name == p.service_name + "__"@ + number + "__"@ + p.container_name + "__"@ + uuid
            &&& text::unsigned_value(number, 255) == Some(p.pod_number)
            &&& uuid_in(uuid) == Some(p.uuid)
        }),
{
    reveal_strlit("__");
    let sep = "__"@;
    let parts = text::split(name, sep);
    text::splitting_loses_nothing(name, sep);
    let (a, b, c) = (parts.skip(1), parts.skip(1).skip(1), parts.skip(1).skip(1).skip(1));
    assert(text::joined(c, sep) == parts[3]);
    assert(text::joined(b, sep) == parts[2] + sep + text::joined(c, sep));
    assert(text::joined(a, sep) == parts[1] + sep + text::joined(b, sep));
    assert(name =~= parts[0] + sep + parts[1] + sep + parts[2] + sep + parts[3]);
    (parts[1], parts[3])
}

/// A name of other than four parts matches no pattern; one of four parts is refused for
/// its pod number first, which must be a number up to 255, and then for its UUID.
pub proof fn unreadable_names_are_refused_for_a_reason(parts: Seq<Seq<char>>, uuid: Option<u128>)
    ensures
        parts.len() != 4 <==> name_parts(parts, uuid) == Err::<NameFacts, ContainerNameError>(
            ContainerNameError::WrongPattern,
        ),
        parts.len() == 4 && text::unsigned_value(parts[1], 255) is None <==> name_parts(parts, uuid) == Err::<
            NameFacts,
            ContainerNameError,
        >(ContainerNameError::InvalidPodNumber),
        parts.len() == 4 && text::unsigned_value(parts[1], 255) is Some && uuid is None <==> name_parts(parts, uuid)
            == Err::<NameFacts, ContainerNameError>(ContainerNameError::InvalidUuid),
{
}

/// A definition is that of a service exactly where it stands under the path and has the
/// name.
pub proof fn definitions_define_the_service_they_name(
    m: Map<Seq<char>, Arc<StoredConfig>>,
    k: Seq<char>,
    service: Seq<char>,
)
    ensures
        defines(m, k, service) <==> m.contains_key(k) && m[k].config.name@ == service,
{
}

} // verus!
