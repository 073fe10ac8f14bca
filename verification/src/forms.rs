//! Request bodies, with the bounds that each must keep.

use vstd::prelude::*;
use vstd::string::StrSliceExecFns;

use crate::error::ApiError;
use crate::views::opt_view;

verus! {

/// Highest latency value a sample may report.
pub const MAX_LATENCY: u16 = 1000;

/// Highest number of failed probes a sample may report.
pub const MAX_FAILED: u8 = 20;

/// Highest number of characters in the name of a machine.
pub const MAX_NAME_CHARS: usize = 32;

/// One latency sample as an agent submits it.
#[derive(Clone, Copy, Debug, PartialEq, Eq, Structural)]
pub struct PingCreate {
    /// Whether the probe went over IPv6.
    pub ipv6: bool,
    /// Lowest latency seen, at most `MAX_LATENCY`.
    pub min: u16,
    /// Average latency seen, at most `MAX_LATENCY`.
    pub avg: u16,
    /// Number of failed probes, at most `MAX_FAILED`.
    pub fail: u8,
}

impl PingCreate {
    /// Whether every field lies within its bounds.
    pub open spec fn valid(self) -> bool {
        &&& self.min <= MAX_LATENCY
        &&& self.avg <= MAX_LATENCY
        &&& self.fail <= MAX_FAILED
    }

    /// Checks the sample against its bounds. A value out of range is
    /// rejected, never clamped.
    pub fn validate(&self) -> (checked: Result<(), ApiError>)
        ensures
            self.valid() ==> checked == Ok::<(), ApiError>(()),
            !self.valid() ==> checked == Err::<(), ApiError>(ApiError::ValidationFailed),
    {
        if self.min <= MAX_LATENCY && self.avg <= MAX_LATENCY && self.fail <= MAX_FAILED {
            Ok(())
        } else {
            Err(ApiError::ValidationFailed)
        }
    }
}

/// Optional filters of a ping query.
#[derive(Clone, Copy, Debug, PartialEq, Eq, Structural)]
pub struct PingFilter {
    /// The address family asked for; IPv4 where absent.
    pub ipv6: Option<bool>,
}

impl PingFilter {
    /// The address family that the filter selects.
    pub open spec fn family(self) -> bool {
        match self.ipv6 {
            Some(v6) => v6,
            None => false,
        }
    }

    /// Whether the query asks for IPv6 samples; `false` where it does not say.
    pub fn wants_ipv6(&self) -> (v6: bool)
        ensures
            v6 == self.family(),
    {
        match self.ipv6 {
            Some(v6) => v6,
            None => false,
        }
    }
}

/// What an agent sends to register itself.
#[derive(Debug, PartialEq, Eq)]
pub struct MachineCreate {
    /// The name to register, of 1 to `MAX_NAME_CHARS` characters.
    pub name: String,
}

impl MachineCreate {
    /// Whether a name has an acceptable length.
    pub open spec fn valid_name(name: Seq<char>) -> bool {
        1 <= name.len() <= MAX_NAME_CHARS
    }

    /// Checks the length of the name, counted in characters.
    pub fn validate(&self) -> (checked: Result<(), ApiError>)
        ensures
            Self::valid_name(self.name@) ==> checked == Ok::<(), ApiError>(()),
            !Self::valid_name(self.name@) ==> checked == Err::<(), ApiError>(
                ApiError::ValidationFailed,
            ),
    {
        let count = self.name.as_str().unicode_len();
        if 1 <= count && count <= MAX_NAME_CHARS {
            Ok(())
        } else {
            Err(ApiError::ValidationFailed)
        }
    }
}

/// The fields of a machine as an administrator writes them. An edit
/// replaces all three. The name has 1 to `MAX_NAME_CHARS` characters.
#[derive(Debug, PartialEq, Eq)]
pub struct MachineCreateAdmin {
    pub name: String,
    pub ip: String,
    pub key: String,
}

impl MachineCreateAdmin {
    /// Checks the length of the name, counted in characters, as for a
    /// machine that registers itself.
    pub fn validate(&self) -> (checked: Result<(), ApiError>)
        ensures
            MachineCreate::valid_name(self.name@) ==> checked == Ok::<(), ApiError>(()),
            !MachineCreate::valid_name(self.name@) ==> checked == Err::<(), ApiError>(
                ApiError::ValidationFailed,
            ),
    {
        let count = self.name.as_str().unicode_len();
        if 1 <= count && count <= MAX_NAME_CHARS {
            Ok(())
        } else {
            Err(ApiError::ValidationFailed)
        }
    }
}

/// What a `MachineCreateAdmin` holds, as mathematical values.
pub struct MachineFields {
    pub name: Seq<char>,
    pub ip: Seq<char>,
    pub key: Seq<char>,
}

impl View for MachineCreateAdmin {
    type V = MachineFields;

    open spec fn view(&self) -> MachineFields {
        MachineFields { name: self.name@, ip: self.ip@, key: self.key@ }
    }
}

/// The fields of a target as an administrator writes them. An edit
/// replaces all four.
#[derive(Debug, PartialEq, Eq)]
pub struct TargetCreateAdmin {
    pub name: String,
    pub domain: Option<String>,
    pub ipv4: Option<String>,
    pub ipv6: Option<String>,
}

/// What a `TargetCreateAdmin` holds, as mathematical values.
pub struct TargetFields {
    pub name: Seq<char>,
    pub domain: Option<Seq<char>>,
    pub ipv4: Option<Seq<char>>,
    pub ipv6: Option<Seq<char>>,
}

impl View for TargetCreateAdmin {
    type V = TargetFields;

    open spec fn view(&self) -> TargetFields {
        TargetFields {
            name: self.name@,
            domain: opt_view(self.domain),
            ipv4: opt_view(self.ipv4),
            ipv6: opt_view(self.ipv6),
        }
    }
}

} // verus!
