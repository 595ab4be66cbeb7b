//! Binary wire framing: one command byte followed by an opaque payload.

use vstd::prelude::*;

verus! {

/// Client-to-server: bytes for the shell's stdin.
pub const CMD_INPUT: u8 = 0x00;
/// Client-to-server: window-size update, rows and cols as big-endian u16.
pub const CMD_RESIZE: u8 = 0x01;
/// Server-to-client: a chunk of live shell output.
pub const CMD_OUTPUT: u8 = 0x00;
/// Server-to-client: the session identifier, sent first, exactly once.
pub const CMD_SESSION_ID: u8 = 0x10;
/// Server-to-client: the scrollback snapshot, sent once if non-empty.
pub const CMD_SCROLLBACK: u8 = 0x11;
/// Server-to-client: the shell has ended; no frame follows.
pub const CMD_SHELL_EXIT: u8 = 0x12;

/// The big-endian 16-bit value held by two bytes.
pub open spec fn be16(hi: u8, lo: u8) -> u16 {
    (hi * 256 + lo) as u16
}

/// A parsed client-to-server frame.
pub enum ClientCommand {
    /// Empty frames carry nothing and are ignored.
    Empty,
    /// Bytes for the shell's stdin.
    Input { payload: Vec<u8> },
    /// A window-size update.
    Resize { rows: u16, cols: u16 },
    /// A resize frame whose payload is shorter than four bytes; ignored.
    ShortResize,
    /// An unrecognised command byte; logged and ignored.
    Unknown { cmd: u8 },
}

/// Parses one client frame: the leading command byte decides, the rest is
/// payload; a resize payload is rows and cols, each big-endian 16-bit.
pub fn parse_client_frame(data: &[u8]) -> (r: ClientCommand)
    ensures
        if data@.len() == 0 {
            r is Empty
        } else if data@[0] == CMD_INPUT {
            r matches ClientCommand::Input { payload } && payload@ == data@.skip(1)
        } else if data@[0] == CMD_RESIZE && data@.len() >= 5 {
            r matches ClientCommand::Resize { rows, cols } && rows == be16(data@[1], data@[2])
                && cols == be16(data@[3], data@[4])
        } else if data@[0] == CMD_RESIZE {
            r is ShortResize
        } else {
            r matches ClientCommand::Unknown { cmd } && cmd == data@[0]
        },
{
    let n: usize = data.len();
    if n == 0 {
        return ClientCommand::Empty;
    }
    let cmd = data[0];
    if cmd == CMD_INPUT {
        let mut payload: Vec<u8> = Vec::new();
        for i in 1..n
            invariant
                n == data@.len(),
                1 <= i <= n,
                payload@ == data@.subrange(1, i as int),
        {
            payload.push(data[i]);
            proof {
                assert(payload@ =~= data@.subrange(1, i as int + 1));
            }
        }
        proof {
            assert(data@.subrange(1, n as int) =~= data@.skip(1));
        }
        ClientCommand::Input { payload }
    } else if cmd == CMD_RESIZE {
        if n >= 5 {
            let rows = (data[1] as u16) * 256 + (data[2] as u16);
            let cols = (data[3] as u16) * 256 + (data[4] as u16);
            ClientCommand::Resize { rows, cols }
        } else {
            ClientCommand::ShortResize
        }
    } else {
        ClientCommand::Unknown { cmd }
    }
}

/// Builds the wire frame for a command byte and payload.
pub fn encode_frame(cmd: u8, payload: &[u8]) -> (r: Vec<u8>)
    ensures
        r@ == seq![cmd] + payload@,
{
    let mut v: Vec<u8> = Vec::new();
    v.push(cmd);
    v.extend_from_slice(payload);
    proof {
        assert(v@ =~= seq![cmd] + payload@);
    }
    v
}

} // verus!
