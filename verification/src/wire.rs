//! Byte-level building blocks of the clamd wire protocol: the fixed command
//! strings and the 4-byte big-endian length prefix used by INSTREAM chunks.

use vstd::prelude::*;

verus! {

/// The four bytes of `n` in big-endian order, for `0 <= n < 2^32`.
pub open spec fn be32(n: int) -> Seq<u8> {
    seq![
        ((n / 0x1000000) % 256) as u8,
        ((n / 0x10000) % 256) as u8,
        ((n / 0x100) % 256) as u8,
        (n % 256) as u8,
    ]
}

/// The value encoded by a 4-byte big-endian sequence.
pub open spec fn be32_value(s: Seq<u8>) -> int
    recommends
        s.len() == 4,
{
    s[0] * 0x1000000 + s[1] * 0x10000 + s[2] * 0x100 + s[3]
}

/// Encodes `n` as 4 bytes in big-endian order.
pub fn write_be32(n: u32) -> (r: Vec<u8>)
    ensures
        r@ == be32(n as int),
        r@.len() == 4,
{
    let mut r: Vec<u8> = Vec::new();
    r.push(((n / 0x1000000) % 256) as u8);
    r.push(((n / 0x10000) % 256) as u8);
    r.push(((n / 0x100) % 256) as u8);
    r.push((n % 256) as u8);
    proof {
        assert(r@ =~= be32(n as int));
    }
    r
}

/// One of the five clamd commands. Each has a fixed wire encoding: the ASCII
/// command name, null-terminated and prefixed with `z`.
#[derive(Clone, Copy, PartialEq, Eq, Structural, Debug)]
pub enum Command {
    Ping,
    Version,
    Reload,
    Shutdown,
    Instream,
}

impl Command {
    /// The exact bytes this command puts on the wire.
    pub open spec fn wire(self) -> Seq<u8> {
        match self {
            Command::Ping => seq!['z' as u8, 'P' as u8, 'I' as u8, 'N' as u8, 'G' as u8, 0u8],
            Command::Version => seq![
                'z' as u8,
                'V' as u8,
                'E' as u8,
                'R' as u8,
                'S' as u8,
                'I' as u8,
                'O' as u8,
                'N' as u8,
                0u8,
            ],
            Command::Reload => seq![
                'z' as u8,
                'R' as u8,
                'E' as u8,
                'L' as u8,
                'O' as u8,
                'A' as u8,
                'D' as u8,
                0u8,
            ],
            Command::Shutdown => seq![
                'z' as u8,
                'S' as u8,
                'H' as u8,
                'U' as u8,
                'T' as u8,
                'D' as u8,
                'O' as u8,
                'W' as u8,
                'N' as u8,
                0u8,
            ],
            Command::Instream => seq![
                'z' as u8,
                'I' as u8,
                'N' as u8,
                'S' as u8,
                'T' as u8,
                'R' as u8,
                'E' as u8,
                'A' as u8,
                'M' as u8,
                0u8,
            ],
        }
    }

    /// Builds the command's wire encoding.
    pub fn wire_bytes(&self) -> (r: Vec<u8>)
        ensures
            r@ == self.wire(),
    {
        let mut r: Vec<u8> = Vec::new();
        r.push('z' as u8);
        match self {
            Command::Ping => {
                r.push('P' as u8);
                r.push('I' as u8);
                r.push('N' as u8);
                r.push('G' as u8);
            },
            Command::Version => {
                r.push('V' as u8);
                r.push('E' as u8);
                r.push('R' as u8);
                r.push('S' as u8);
                r.push('I' as u8);
                r.push('O' as u8);
                r.push('N' as u8);
            },
            Command::Reload => {
                r.push('R' as u8);
                r.push('E' as u8);
                r.push('L' as u8);
                r.push('O' as u8);
                r.push('A' as u8);
                r.push('D' as u8);
            },
            Command::Shutdown => {
                r.push('S' as u8);
                r.push('H' as u8);
                r.push('U' as u8);
                r.push('T' as u8);
                r.push('D' as u8);
                r.push('O' as u8);
                r.push('W' as u8);
                r.push('N' as u8);
            },
            Command::Instream => {
                r.push('I' as u8);
                r.push('N' as u8);
                r.push('S' as u8);
                r.push('T' as u8);
                r.push('R' as u8);
                r.push('E' as u8);
                r.push('A' as u8);
                r.push('M' as u8);
            },
        }
        r.push(0u8);
        proof {
            assert(r@ =~= self.wire());
        }
        r
    }

    /// For commands whose reply has a known fixed form, the length of that
    /// reply, used by the reader only to pre-size its buffer.
    pub open spec fn spec_response_hint(self) -> Option<usize> {
        match self {
            Command::Ping => Some(5usize),  // "PONG\0"
            Command::Reload => Some(10usize),  // "RELOADING\0"
            _ => None,
        }
    }

    /// Advisory length hint for this command's reply.
    pub fn response_hint(&self) -> (r: Option<usize>)
        ensures
            r == self.spec_response_hint(),
    {
        match self {
            Command::Ping => Some(5),
            Command::Reload => Some(10),
            _ => None,
        }
    }
}

/// clamd's reply to PING: `PONG\0`.
pub open spec fn pong() -> Seq<u8> {
    seq!['P' as u8, 'O' as u8, 'N' as u8, 'G' as u8, 0u8]
}

/// Builds the expected PING reply, `PONG\0`.
pub fn pong_bytes() -> (r: Vec<u8>)
    ensures
        r@ == pong(),
{
    let mut r: Vec<u8> = Vec::new();
    r.push('P' as u8);
    r.push('O' as u8);
    r.push('N' as u8);
    r.push('G' as u8);
    r.push(0u8);
    proof {
        assert(r@ =~= pong());
    }
    r
}

/// clamd's reply to RELOAD: `RELOADING\0`.
pub open spec fn reloading() -> Seq<u8> {
    seq![
        'R' as u8,
        'E' as u8,
        'L' as u8,
        'O' as u8,
        'A' as u8,
        'D' as u8,
        'I' as u8,
        'N' as u8,
        'G' as u8,
        0u8,
    ]
}

/// Builds the expected RELOAD reply, `RELOADING\0`.
pub fn reloading_bytes() -> (r: Vec<u8>)
    ensures
        r@ == reloading(),
{
    let mut r: Vec<u8> = Vec::new();
    r.push('R' as u8);
    r.push('E' as u8);
    r.push('L' as u8);
    r.push('O' as u8);
    r.push('A' as u8);
    r.push('D' as u8);
    r.push('I' as u8);
    r.push('N' as u8);
    r.push('G' as u8);
    r.push(0u8);
    proof {
        assert(r@ =~= reloading());
    }
    r
}

/// Recovering the value from its big-endian bytes is the identity on
/// `[0, 2^32)`.
pub proof fn lemma_be32_value(n: int)
    requires
        0 <= n < 0x100000000,
    ensures
        be32_value(be32(n)) == n,
{
    let s = be32(n);
    assert(s[0] == (n / 0x1000000) % 256 && s[1] == (n / 0x10000) % 256 && s[2] == (n / 0x100)
        % 256 && s[3] == n % 256);
    assert(((n / 0x1000000) % 256) * 0x1000000 + ((n / 0x10000) % 256) * 0x10000 + ((n / 0x100)
        % 256) * 0x100 + n % 256 == n) by (nonlinear_arith)
        requires
            0 <= n < 0x100000000,
    ;
}

} // verus!
