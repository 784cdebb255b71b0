//! Resource limits.
//!
//! A limit is a number and a multiplier. The product is taken by whoever can do
//! floating-point arithmetic.

use crate::config::LimitValue;
use crate::level;
use crate::level::Level;
use crate::pattern;
use crate::text;
use vstd::arithmetic::power2::*;
use vstd::prelude::*;
use vstd::string::*;

verus! {

/// The greatest CPU limit that still fits when counted in nanocpus, as bits.
pub const MAX_CPUS: u64 = 0x42112e0be826d695;

/// Why a limit is refused.
#[derive(Clone, Copy, PartialEq, Eq, Structural, Debug)]
pub enum LimitError {
    /// The text is not a number and a unit.
    InvalidFormat,
    /// The unit is none of those known.
    UnsupportedUnit,
    /// The value is neither a number nor a text.
    UnsupportedType,
    /// Not above zero, or too large to count in nanocpus.
    OutOfRange,
}

/// The number in a limit.
#[derive(Debug)]
pub enum AmountNumber {
    /// A number.
    Given(Level),
    /// A numeral, still to be read.
    Numeral(String),
}

/// A number and what to multiply it by.
#[derive(Debug)]
pub struct Amount {
    pub number: AmountNumber,
    pub multiplier: u64,
}

/// What an `Amount` says.
pub enum AmountFacts {
    Given(Level, nat),
    Numeral(Seq<char>, nat),
}

impl View for Amount {
    type V = AmountFacts;

    open spec fn view(&self) -> AmountFacts {
        match self.number {
            AmountNumber::Given(l) => AmountFacts::Given(l, self.multiplier as nat),
            AmountNumber::Numeral(s) => AmountFacts::Numeral(s@, self.multiplier as nat),
        }
    }
}

/// The bytes in a memory unit.
pub open spec fn memory_multiplier(unit: Seq<char>) -> Option<nat> {
    if unit == "Ki"@ || unit == "K"@ {
        Some(1024)
    } else if unit == "Mi"@ || unit == "M"@ {
        Some(1024 * 1024)
    } else if unit == "Gi"@ || unit == "G"@ {
        Some(1024 * 1024 * 1024)
    } else {
        None
    }
}

/// The bits per second in a rate unit.
pub open spec fn rate_multiplier(unit: Seq<char>) -> Option<nat> {
    if unit == "Kbps"@ {
        Some(1_000)
    } else if unit == "Mbps"@ {
        Some(1_000_000)
    } else if unit == "Gbps"@ {
        Some(1_000_000_000)
    } else {
        None
    }
}

/// What a number and a unit come to.
pub open spec fn amount_of(
    found: Option<(Seq<char>, Seq<char>)>,
    multiplier: spec_fn(Seq<char>) -> Option<nat>,
) -> Result<AmountFacts, LimitError> {
    match found {
        None => Err(LimitError::InvalidFormat),
        Some((number, unit)) => match multiplier(unit) {
            None => Err(LimitError::UnsupportedUnit),
            Some(m) => Ok(AmountFacts::Numeral(number, m)),
        },
    }
}

/// The amount is the numeral before position `i`, times the bytes in the unit from
/// there on.
pub open spec fn memory_split(s: Seq<char>, i: int, a: AmountFacts) -> bool {
    &&& 0 <= i <= s.len()
    &&& memory_multiplier(s.skip(i)) is Some
    &&& a == AmountFacts::Numeral(s.take(i), memory_multiplier(s.skip(i))->0)
}

/// The amount is the numeral before position `i`, times the bits per second in the
/// unit from there on.
pub open spec fn rate_split(s: Seq<char>, i: int, a: AmountFacts) -> bool {
    &&& 0 <= i <= s.len()
    &&& rate_multiplier(s.skip(i)) is Some
    &&& a == AmountFacts::Numeral(s.take(i), rate_multiplier(s.skip(i))->0)
}

/// What the expression of a memory limit captures in a text.
pub open spec fn memory_captures(s: Seq<char>) -> Option<(Seq<char>, Seq<char>)> {
    pattern::captured("^(\\d+\\.?\\d*)([KMG]i?)$"@, s)
}

/// What the expression of a network rate captures in a text.
pub open spec fn rate_captures(s: Seq<char>) -> Option<(Seq<char>, Seq<char>)> {
    pattern::captured("^(\\d+(?:\\.\\d+)?)(Kbps|Mbps|Gbps)$"@, s)
}

/// What a memory limit comes to, where `found` is what its text captures.
pub open spec fn memory_amount(
    v: LimitValue,
    found: Option<(Seq<char>, Seq<char>)>,
) -> Result<AmountFacts, LimitError> {
    match v {
        LimitValue::Number(l) => Ok(AmountFacts::Given(l, 1024 * 1024 * 1024)),
        LimitValue::Text(s) => amount_of(found, |u: Seq<char>| memory_multiplier(u)),
        LimitValue::Other => Err(LimitError::UnsupportedType),
    }
}

/// What a memory limit comes to.
pub open spec fn memory_limit(v: LimitValue) -> Result<AmountFacts, LimitError> {
    memory_amount(
        v,
        match v {
            LimitValue::Text(s) => memory_captures(s@),
            _ => None,
        },
    )
}

/// What a CPU limit comes to.
pub open spec fn cpu_limit(v: LimitValue) -> Result<AmountFacts, LimitError> {
    match v {
        LimitValue::Number(l) => if level::whole_level(0).not_below(l) || l.above(Level { bits: MAX_CPUS }) {
            Err(LimitError::OutOfRange)
        } else {
            Ok(AmountFacts::Given(l, 1_000_000_000))
        },
        LimitValue::Text(s) => Ok(AmountFacts::Numeral(s@, 1_000_000_000)),
        LimitValue::Other => Err(LimitError::UnsupportedType),
    }
}

/// `r` is the exact result `s`.
pub open spec fn is_amount(r: Result<Amount, LimitError>, s: Result<AmountFacts, LimitError>) -> bool {
    match r {
        Ok(a) => s == Ok::<AmountFacts, LimitError>(a@),
        Err(e) => s == Err::<AmountFacts, LimitError>(e),
    }
}

/// What was captured, as texts.
pub open spec fn capture_texts(found: Option<(String, String)>) -> Option<(Seq<char>, Seq<char>)> {
    match found {
        Some(c) => Some((c.0@, c.1@)),
        None => None,
    }
}

/// Turns a captured number and memory unit into an amount.
pub fn memory_amount_from(found: Option<(String, String)>) -> (r: Result<Amount, LimitError>)
    ensures
        is_amount(r, amount_of(capture_texts(found), |u: Seq<char>| memory_multiplier(u))),
{
    match found {
        Some((number, unit)) => {
            let u: &str = unit.as_str();
            let multiplier: u64 = if text::same(u, "Ki") || text::same(u, "K") {
                1024
            } else if text::same(u, "Mi") || text::same(u, "M") {
                1024 * 1024
            } else if text::same(u, "Gi") || text::same(u, "G") {
                1024 * 1024 * 1024
            } else {
                return Err(LimitError::UnsupportedUnit);
            };
            Ok(Amount { number: AmountNumber::Numeral(number), multiplier })
        },
        None => Err(LimitError::InvalidFormat),
    }
}

/// Turns a captured number and rate unit into an amount.
pub fn rate_amount_from(found: Option<(String, String)>) -> (r: Result<Amount, LimitError>)
    ensures
        is_amount(r, amount_of(capture_texts(found), |u: Seq<char>| rate_multiplier(u))),
{
    match found {
        Some((number, unit)) => {
            let u: &str = unit.as_str();
            let multiplier: u64 = if text::same(u, "Kbps") {
                1_000
            } else if text::same(u, "Mbps") {
                1_000_000
            } else if text::same(u, "Gbps") {
                1_000_000_000
            } else {
                return Err(LimitError::UnsupportedUnit);
            };
            Ok(Amount { number: AmountNumber::Numeral(number), multiplier })
        },
        None => Err(LimitError::InvalidFormat),
    }
}

/// Reads a memory limit. A bare number counts in GiB.
pub fn parse_memory_limit(value: &LimitValue) -> (r: Result<Amount, LimitError>)
    ensures
        is_amount(r, memory_limit(*value)),
        (value matches LimitValue::Text(s) ==> vstd::utf8::is_ascii_chars(s@) ==> (r is Ok <==> exists|i: int|
            0 <= i <= s@.len() && pattern::memory_number(#[trigger] s@.take(i)) && pattern::memory_unit(s@.skip(i)))),
        (value matches LimitValue::Text(s) ==> (r matches Ok(a) ==> exists|i: int| #[trigger]
            memory_split(s@, i, a@))),
{
    match value {
        LimitValue::Number(l) => Ok(
            Amount { number: AmountNumber::Given(*l), multiplier: 1024 * 1024 * 1024 },
        ),
        LimitValue::Text(s) => {
            let found: Option<(String, String)> = pattern::captures("^(\\d+\\.?\\d*)([KMG]i?)$", s.as_str());
            proof {
                if let Some(c) = capture_texts(found) {
                    let n = c.0.len() as int;
                    assert(s@.take(n) =~= c.0);
                    assert(s@.skip(n) =~= c.1);
                    assert(memory_multiplier(c.1) is Some);
                    assert(memory_split(s@, n, AmountFacts::Numeral(c.0, memory_multiplier(c.1)->0)));
                }
            }
            memory_amount_from(found)
        },
        LimitValue::Other => Err(LimitError::UnsupportedType),
    }
}

/// Reads a CPU limit, to be counted in nanocpus.
pub fn parse_cpu_limit(value: &LimitValue) -> (r: Result<Amount, LimitError>)
    ensures
        is_amount(r, cpu_limit(*value)),
{
    match value {
        LimitValue::Number(l) => {
            let greatest: Level = Level { bits: MAX_CPUS };
            if Level::whole(0).reaches(l) || l.exceeds(&greatest) {
                return Err(LimitError::OutOfRange);
            }
            Ok(Amount { number: AmountNumber::Given(*l), multiplier: 1_000_000_000 })
        },
        LimitValue::Text(s) => Ok(Amount { number: AmountNumber::Numeral(s.clone()), multiplier: 1_000_000_000 }),
        LimitValue::Other => Err(LimitError::UnsupportedType),
    }
}

/// Reads a network rate, to be counted in bits per second.
pub fn parse_network_rate(rate: &str) -> (r: Result<Amount, LimitError>)
    ensures
        is_amount(r, amount_of(rate_captures(rate@), |u: Seq<char>| rate_multiplier(u))),
        vstd::utf8::is_ascii_chars(rate@) ==> (r is Ok <==> exists|i: int|
            0 <= i <= rate@.len() && pattern::rate_number(#[trigger] rate@.take(i)) && pattern::rate_unit(
                rate@.skip(i),
            )),
        r matches Ok(a) ==> exists|i: int| #[trigger] rate_split(rate@, i, a@),
{
    let found: Option<(String, String)> = pattern::captures("^(\\d+(?:\\.\\d+)?)(Kbps|Mbps|Gbps)$", rate);
    proof {
        if let Some(c) = capture_texts(found) {
            let n = c.0.len() as int;
            assert(rate@.take(n) =~= c.0);
            assert(rate@.skip(n) =~= c.1);
            assert(rate_multiplier(c.1) is Some);
            assert(rate_split(rate@, n, AmountFacts::Numeral(c.0, rate_multiplier(c.1)->0)));
        }
    }
    rate_amount_from(found)
}

/// The limit that a container is started with.
#[derive(Debug)]
pub enum EffectiveLimit {
    /// Its own.
    Container(Amount),
    /// That of its service.
    Service(Amount),
    /// None.
    Unlimited,
}

/// What an `EffectiveLimit` says.
pub enum EffectiveFacts {
    Container(AmountFacts),
    Service(AmountFacts),
    Unlimited,
}

impl View for EffectiveLimit {
    type V = EffectiveFacts;

    open spec fn view(&self) -> EffectiveFacts {
        match self {
            EffectiveLimit::Container(a) => EffectiveFacts::Container(a@),
            EffectiveLimit::Service(a) => EffectiveFacts::Service(a@),
            EffectiveLimit::Unlimited => EffectiveFacts::Unlimited,
        }
    }
}

/// A container's own limit wins, and must be readable; a service's limit counts
/// only where it is readable.
pub open spec fn effective(
    container: Option<Result<AmountFacts, LimitError>>,
    service: Option<Result<AmountFacts, LimitError>>,
) -> Result<EffectiveFacts, LimitError> {
    match container {
        Some(Ok(a)) => Ok(EffectiveFacts::Container(a)),
        Some(Err(e)) => Err(e),
        None => match service {
            Some(Ok(a)) => Ok(EffectiveFacts::Service(a)),
            _ => Ok(EffectiveFacts::Unlimited),
        },
    }
}

/// `r` is the exact result `s`.
pub open spec fn is_effective(r: Result<EffectiveLimit, LimitError>, s: Result<EffectiveFacts, LimitError>) -> bool {
    match r {
        Ok(a) => s == Ok::<EffectiveFacts, LimitError>(a@),
        Err(e) => s == Err::<EffectiveFacts, LimitError>(e),
    }
}

/// What an optional memory limit comes to.
pub open spec fn optional_memory_limit(v: Option<LimitValue>) -> Option<Result<AmountFacts, LimitError>> {
    match v {
        Some(l) => Some(memory_limit(l)),
        None => None,
    }
}

/// What an optional CPU limit comes to.
pub open spec fn optional_cpu_limit(v: Option<LimitValue>) -> Option<Result<AmountFacts, LimitError>> {
    match v {
        Some(l) => Some(cpu_limit(l)),
        None => None,
    }
}

/// The memory limit that a container is started with.
pub fn effective_memory_limit(container: &Option<LimitValue>, service: &Option<LimitValue>) -> (r: Result<
    EffectiveLimit,
    LimitError,
>)
    ensures
        is_effective(r, effective(optional_memory_limit(*container), optional_memory_limit(*service))),
{
    match container {
        Some(v) => match parse_memory_limit(v) {
            Ok(a) => Ok(EffectiveLimit::Container(a)),
            Err(e) => Err(e),
        },
        None => match service {
            Some(v) => match parse_memory_limit(v) {
                Ok(a) => Ok(EffectiveLimit::Service(a)),
                Err(_) => Ok(EffectiveLimit::Unlimited),
            },
            None => Ok(EffectiveLimit::Unlimited),
        },
    }
}

/// The CPU limit that a container is started with.
pub fn effective_cpu_limit(container: &Option<LimitValue>, service: &Option<LimitValue>) -> (r: Result<
    EffectiveLimit,
    LimitError,
>)
    ensures
        is_effective(r, effective(optional_cpu_limit(*container), optional_cpu_limit(*service))),
{
    match container {
        Some(v) => match parse_cpu_limit(v) {
            Ok(a) => Ok(EffectiveLimit::Container(a)),
            Err(e) => Err(e),
        },
        None => match service {
            Some(v) => match parse_cpu_limit(v) {
                Ok(a) => Ok(EffectiveLimit::Service(a)),
                Err(_) => Ok(EffectiveLimit::Unlimited),
            },
            None => Ok(EffectiveLimit::Unlimited),
        },
    }
}

/// A container's own limit decides alone: the service's does not matter.
pub proof fn container_limit_wins(
    container: Result<AmountFacts, LimitError>,
    service: Option<Result<AmountFacts, LimitError>>,
)
    ensures
        effective(Some(container), service) == (match container {
            Ok(a) => Ok(EffectiveFacts::Container(a)),
            Err(e) => Err(e),
        }),
{
}

/// A service's limit never keeps a container from starting.
pub proof fn service_limit_never_fails(service: Option<Result<AmountFacts, LimitError>>)
    ensures
        effective(None, service) is Ok,
{
}

/// A CPU limit given as a number is taken for every number above zero, fractions
/// included, up to what a count of billionths of a processor can hold; it is out
/// of range for any other number, and counts a billion to the processor.
pub proof fn positive_cpu_numbers_are_taken(l: Level)
    requires
        l.finite(),
    ensures
        0 < l.value() <= 18_446_744_073 * pow2(1074) ==> cpu_limit(LimitValue::Number(l)) == Ok::<
            AmountFacts,
            LimitError,
        >(AmountFacts::Given(l, 1_000_000_000)),
        l.value() <= 0 || l.value() >= 18_446_744_074 * pow2(1074) ==> cpu_limit(LimitValue::Number(l)) == Err::<
            AmountFacts,
            LimitError,
        >(LimitError::OutOfRange),
        cpu_limit(LimitValue::Number(l)) is Ok || cpu_limit(LimitValue::Number(l)) == Err::<AmountFacts, LimitError>(
            LimitError::OutOfRange,
        ),
{
    let top = Level { bits: MAX_CPUS };
    level::whole_levels_are_whole(0);
    level::levels_compare_as_numbers(level::whole_level(0), l);
    assert(top.finite());
    level::levels_compare_as_numbers(l, top);
    lemma_greatest_count();
}

/// The greatest number of processors lies between two whole numbers.
proof fn lemma_greatest_count()
    ensures
        18_446_744_073 * pow2(1074) < (Level { bits: MAX_CPUS }).value() < 18_446_744_074 * pow2(1074),
{
    let m: nat = 0x112e0be826d695;
    level::lemma_divide(0x421, 0x12e0be826d695);
    assert((Level { bits: MAX_CPUS }).value() == m * pow2(1056));
    lemma2_to64();
    lemma_pow2_adds(18, 1056);
    let p = pow2(1056) as int;
    lemma_pow2_pos(1056);
    assert(18_446_744_073 * (0x40000 * p) < m * p < 18_446_744_074 * (0x40000 * p)) by (nonlinear_arith)
        requires
            p > 0,
            m == 0x112e0be826d695,
    ;
}

/// Of two CPU limits given as numbers, a smaller one above zero is taken wherever
/// the greater one is.
pub proof fn smaller_cpu_numbers_are_taken_too(less: Level, more: Level)
    requires
        more.finite(),
        less.above(level::whole_level(0)),
        more.not_below(less),
        cpu_limit(LimitValue::Number(more)) is Ok,
    ensures
        cpu_limit(LimitValue::Number(less)) == Ok::<AmountFacts, LimitError>(AmountFacts::Given(less, 1_000_000_000)),
{
    level::whole_levels_are_whole(0);
}

/// A limit says the same as a number and as a text: a CPU limit counts processors
/// either way, and a memory limit as a number counts what a text counts with the
/// greatest unit. What is neither is of no supported type.
pub proof fn numbers_and_texts_count_alike(l: Level, s: String)
    ensures
        cpu_limit(LimitValue::Text(s)) == Ok::<AmountFacts, LimitError>(AmountFacts::Numeral(s@, 1_000_000_000)),
        cpu_limit(LimitValue::Number(l)) matches Ok(a) ==> a == AmountFacts::Given(l, 1_000_000_000),
        memory_limit(LimitValue::Number(l)) == Ok::<AmountFacts, LimitError>(AmountFacts::Given(l, 1_073_741_824)),
        memory_multiplier("G"@) == Some(1_073_741_824nat),
        cpu_limit(LimitValue::Other) == Err::<AmountFacts, LimitError>(LimitError::UnsupportedType),
        memory_limit(LimitValue::Other) == Err::<AmountFacts, LimitError>(LimitError::UnsupportedType),
{
    lemma_units();
}

proof fn lemma_units()
    ensures
        memory_multiplier("K"@) == Some(1024nat),
        memory_multiplier("Ki"@) == Some(1024nat),
        memory_multiplier("M"@) == Some(1_048_576nat),
        memory_multiplier("Mi"@) == Some(1_048_576nat),
        memory_multiplier("G"@) == Some(1_073_741_824nat),
        memory_multiplier("Gi"@) == Some(1_073_741_824nat),
        rate_multiplier("Kbps"@) == Some(1_000nat),
        rate_multiplier("Mbps"@) == Some(1_000_000nat),
        rate_multiplier("Gbps"@) == Some(1_000_000_000nat),
{
    reveal_strlit("K");
    reveal_strlit("Ki");
    reveal_strlit("M");
    reveal_strlit("Mi");
    reveal_strlit("G");
    reveal_strlit("Gi");
    reveal_strlit("Kbps");
    reveal_strlit("Mbps");
    reveal_strlit("Gbps");
    assert("K"@[0] != "M"@[0] && "K"@[0] != "G"@[0] && "M"@[0] != "G"@[0]);
    assert("Ki"@[0] == "K"@[0] && "Mi"@[0] == "M"@[0] && "Gi"@[0] == "G"@[0]);
    assert("Kbps"@[0] == "K"@[0] && "Mbps"@[0] == "M"@[0] && "Gbps"@[0] == "G"@[0]);
}

/// Units of memory go up by 1024, with and without the final letter; units of
/// network rates go up by 1000. There are no others.
pub proof fn units_go_up_by_steps(unit: Seq<char>)
    ensures
        memory_multiplier(unit) == (if unit == "K"@ || unit == "Ki"@ {
            Some(1024nat)
        } else if unit == "M"@ || unit == "Mi"@ {
            Some((1024 * 1024) as nat)
        } else if unit == "G"@ || unit == "Gi"@ {
            Some((1024 * 1024 * 1024) as nat)
        } else {
            None
        }),
        rate_multiplier(unit) == (if unit == "Kbps"@ {
            Some(1000nat)
        } else if unit == "Mbps"@ {
            Some((1000 * 1000) as nat)
        } else if unit == "Gbps"@ {
            Some((1000 * 1000 * 1000) as nat)
        } else {
            None
        }),
        memory_multiplier(unit) is Some <==> pattern::memory_unit(unit),
        rate_multiplier(unit) is Some <==> pattern::rate_unit(unit),
{
    lemma_units();
}

/// A text that the pattern splits into a number and a unit is the number times the
/// multiplier of the unit, and a text that it does not split is refused.
pub proof fn texts_are_number_and_unit(s: String, number: Seq<char>, unit: Seq<char>)
    ensures
        memory_captures(s@) == Some((number, unit)) && memory_multiplier(unit) is Some ==> memory_limit(
            LimitValue::Text(s),
        ) == Ok::<AmountFacts, LimitError>(AmountFacts::Numeral(number, memory_multiplier(unit)->0)),
        memory_captures(s@) is None ==> memory_limit(LimitValue::Text(s)) == Err::<AmountFacts, LimitError>(
            LimitError::InvalidFormat,
        ),
{
}

/// The limit of a service is in force for a container without its own, and only
/// then; a limit of the service that cannot be read counts as none. Without either
/// there is no limit.
pub proof fn services_limit_the_containers_without_a_limit(service: Option<LimitValue>, own: LimitValue)
    ensures
        service is None ==> effective(optional_cpu_limit(None), optional_cpu_limit(service)) == Ok::<
            EffectiveFacts,
            LimitError,
        >(EffectiveFacts::Unlimited),
        service is None ==> effective(optional_memory_limit(None), optional_memory_limit(service)) == Ok::<
            EffectiveFacts,
            LimitError,
        >(EffectiveFacts::Unlimited),
        service matches Some(v) ==> effective(optional_cpu_limit(None), optional_cpu_limit(service)) == (match cpu_limit(
            v,
        ) {
            Ok(a) => Ok::<EffectiveFacts, LimitError>(EffectiveFacts::Service(a)),
            Err(_) => Ok(EffectiveFacts::Unlimited),
        }),
        service matches Some(v) ==> effective(optional_memory_limit(None), optional_memory_limit(service)) == (
        match memory_limit(v) {
            Ok(a) => Ok::<EffectiveFacts, LimitError>(EffectiveFacts::Service(a)),
            Err(_) => Ok(EffectiveFacts::Unlimited),
        }),
        effective(optional_cpu_limit(Some(own)), optional_cpu_limit(service)) == (match cpu_limit(own) {
            Ok(a) => Ok::<EffectiveFacts, LimitError>(EffectiveFacts::Container(a)),
            Err(e) => Err(e),
        }),
        effective(optional_memory_limit(Some(own)), optional_memory_limit(service)) == (match memory_limit(own) {
            Ok(a) => Ok::<EffectiveFacts, LimitError>(EffectiveFacts::Container(a)),
            Err(e) => Err(e),
        }),
{
}

} // verus!
