//! Construction of outbound wire lines.
//!
//! Every outbound command is a verb, a space, a payload, and the protocol's
//! CRLF terminator. The registration handshake is two such lines, `USER`
//! then `NICK`.

use vstd::prelude::*;
use vstd::string::StringSliceAdditionalSpecFns;

verus! {

/// The ASCII space byte that separates a verb from its payload.
pub const SP: u8 = 32;

/// The carriage-return byte of the CRLF line terminator.
pub const CR: u8 = 13;

/// The line-feed byte of the CRLF line terminator.
pub const LF: u8 = 10;

/// The byte sequences held by a vector of byte vectors, in order.
pub open spec fn seq_views(s: Seq<Vec<u8>>) -> Seq<Seq<u8>> {
    s.map_values(|v: Vec<u8>| v@)
}

/// The bytes of one outbound wire line: verb, space, payload, CRLF.
pub open spec fn wire_of(cmd: Seq<u8>, payload: Seq<u8>) -> Seq<u8> {
    cmd + seq![SP] + payload + seq![CR, LF]
}

/// The bytes of the registration `USER` line for a nickname.
pub open spec fn user_line_of(nick: Seq<u8>) -> Seq<u8> {
    wire_of("USER".spec_bytes(), nick + " * * ".spec_bytes() + nick)
}

/// The bytes of the registration `NICK` line for a nickname.
pub open spec fn nick_line_of(nick: Seq<u8>) -> Seq<u8> {
    wire_of("NICK".spec_bytes(), nick)
}

/// Appends every byte of `src` to `dst`, in order.
pub fn append_bytes(dst: &mut Vec<u8>, src: &[u8])
    ensures
        final(dst)@ == old(dst)@ + src@,
{
    let mut k: usize = 0;
    while k < src.len()
        invariant
            k <= src@.len(),
            dst@ == old(dst)@ + src@.subrange(0, k as int),
        decreases src@.len() - k,
    {
        dst.push(src[k]);
        k = k + 1;
        proof {
            assert(dst@ =~= old(dst)@ + src@.subrange(0, k as int));
        }
    }
    proof {
        assert(dst@ =~= old(dst)@ + src@);
    }
}

/// Builds one outbound wire line from a verb and a payload.
pub fn wire_line(cmd: &str, payload: &[u8]) -> (out: Vec<u8>)
    ensures
        out@ == wire_of(cmd.spec_bytes(), payload@),
{
    let mut out: Vec<u8> = Vec::new();
    append_bytes(&mut out, cmd.as_bytes());
    out.push(SP);
    append_bytes(&mut out, payload);
    out.push(CR);
    out.push(LF);
    proof {
        assert(out@ =~= wire_of(cmd.spec_bytes(), payload@));
    }
    out
}

/// Builds the two registration lines for a nickname: the `USER` line first,
/// then the `NICK` line, in the order they must be written.
pub fn registration_lines(nick: &str) -> (lines: Vec<Vec<u8>>)
    ensures
        lines@.len() == 2,
        lines@[0]@ == user_line_of(nick.spec_bytes()),
        lines@[1]@ == nick_line_of(nick.spec_bytes()),
{
    let mut payload: Vec<u8> = Vec::new();
    append_bytes(&mut payload, nick.as_bytes());
    append_bytes(&mut payload, " * * ".as_bytes());
    append_bytes(&mut payload, nick.as_bytes());
    let user = wire_line("USER", payload.as_slice());
    let nick_cmd = wire_line("NICK", nick.as_bytes());
    let mut lines: Vec<Vec<u8>> = Vec::new();
    lines.push(user);
    lines.push(nick_cmd);
    lines
}

} // verus!
