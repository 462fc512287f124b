use vstd::prelude::*;

use crate::protocol::PROTOCOL_VERSION;

verus! {

pub const REPLAY_FORMAT_VERSION: u16 = 1;

/// The package the server is built as.
pub const PACKAGE_NAME: &'static str = "millions-server";

pub const PACKAGE_VERSION: &'static str = "0.1.0";

/// The protocol fixture descriptors shipped with the server.
pub const FIXTURE_DESCRIPTOR_COUNT: usize = 3;

#[derive(Debug, Clone, PartialEq, Eq)]
pub struct BuildEvidence {
    pub package_name: &'static str,
    pub package_version: &'static str,
    pub protocol_version: u16,
    pub fixture_descriptor_count: usize,
    pub replay_format_version: u16,
    pub build_id: String,
}

/// A decimal digit.
pub open spec fn decimal_digit(d: nat) -> char {
    (48 + d) as char
}

/// The decimal digits of a number, without leading zeros.
pub open spec fn decimal(n: nat) -> Seq<char>
    decreases n,
{
    if n < 10 {
        seq![decimal_digit(n)]
    } else {
        decimal(n / 10).push(decimal_digit(n % 10))
    }
}

/// The build id: name, version, protocol, fixture count and replay format, joined by dashes.
pub open spec fn build_id_of(name: Seq<char>, version: Seq<char>, protocol: nat, fixtures: nat, replay: nat) -> Seq<char> {
    name + seq!['-'] + version + "-protocol_v"@ + decimal(protocol) + "-fixtures_"@ + decimal(fixtures)
        + "-replay_v"@ + decimal(replay)
}

/// Appends the decimal digits of `n`.
fn push_decimal(out: &mut String, n: u64)
    ensures
        final(out)@ == old(out)@ + decimal(n as nat),
    decreases n,
{
    if n >= 10 {
        push_decimal(out, n / 10);
    }
    let d: u8 = (n % 10) as u8;
    let c: char = (48u8 + d) as char;
    proof {
        assert(c == decimal_digit(d as nat));
    }
    out.push(c);
    proof {
        if n < 10 {
            assert(decimal(n as nat) == seq![decimal_digit(n as nat)]);
        }
    }
}

/// The build id text: name, version, protocol, fixture count and replay format, joined by
/// dashes, the numbers written in decimal.
fn build_id_text(name: &str, version: &str, protocol: u16, fixtures: usize, replay: u16) -> (r: String)
    ensures
        r@ == build_id_of(name@, version@, protocol as nat, fixtures as nat, replay as nat),
{
    let mut r = String::from_str(name);
    r.push('-');
    r.append(version);
    proof {
        reveal_strlit("-protocol_v");
        reveal_strlit("-fixtures_");
        reveal_strlit("-replay_v");
    }
    r.append("-protocol_v");
    push_decimal(&mut r, protocol as u64);
    r.append("-fixtures_");
    push_decimal(&mut r, fixtures as u64);
    r.append("-replay_v");
    push_decimal(&mut r, replay as u64);
    proof {
        assert(r@ =~= build_id_of(name@, version@, protocol as nat, fixtures as nat, replay as nat));
    }
    r
}

impl BuildEvidence {
    /// The evidence of the foundation build, with a build id that names no path.
    pub fn foundation() -> (r: Self)
        ensures
            r.package_name@ == PACKAGE_NAME@,
            r.package_version@ == PACKAGE_VERSION@,
            r.protocol_version == PROTOCOL_VERSION,
            r.fixture_descriptor_count == FIXTURE_DESCRIPTOR_COUNT,
            r.replay_format_version == REPLAY_FORMAT_VERSION,
            r.build_id@ == build_id_of(
                PACKAGE_NAME@,
                PACKAGE_VERSION@,
                PROTOCOL_VERSION as nat,
                FIXTURE_DESCRIPTOR_COUNT as nat,
                REPLAY_FORMAT_VERSION as nat,
            ),
    {
        let package_name = PACKAGE_NAME;
        let package_version = PACKAGE_VERSION;
        let fixture_descriptor_count = FIXTURE_DESCRIPTOR_COUNT;
        let replay_format_version = REPLAY_FORMAT_VERSION;
        let build_id = build_id_text(
            package_name,
            package_version,
            PROTOCOL_VERSION,
            fixture_descriptor_count,
            replay_format_version,
        );
        Self {
            package_name,
            package_version,
            protocol_version: PROTOCOL_VERSION,
            fixture_descriptor_count,
            replay_format_version,
            build_id,
        }
    }
}

} // verus!
