//! The Sahara protocol: packet layouts, the little-endian wire codec with
//! its round-trip proof, the packet builders the host sends, and the state
//! machine that decides how to answer each incoming packet.

use vstd::prelude::*;

use crate::bytes::{
    push_le32, push_le64, read_le32, read_le64, spec_le32, spec_le64, spec_u32_of_le,
    spec_u64_of_le, lemma_le32_roundtrip, lemma_le64_roundtrip, lemma_le32_reencode,
    lemma_le64_reencode,
};

verus! {

/// Protocol modes a Sahara session can be asked to enter.
#[derive(Clone, Copy, Debug, PartialEq, Eq, Structural)]
pub enum SaharaMode {
    WaitingForImage,
    MemoryDebug,
    Command,
}

/// Command-mode subcommands.
#[derive(Clone, Copy, Debug, PartialEq, Eq, Structural)]
pub enum SaharaCmdModeCmd {
    Nop,
    ReadSerialNum,
    ReadHwId,
    ReadOemKeyHash,
}

/// Sahara opcodes. `SaharaXML` is not part of the protocol: it is the
/// little-endian reading of `"<?xm"`, meaning the device already speaks
/// Firehose.
#[derive(Clone, Copy, Debug, PartialEq, Eq, Structural)]
pub enum SaharaCmd {
    SaharaHello,
    SaharaHelloResp,
    SaharaReadData,
    SaharaEndOfImage,
    SaharaDone,
    SaharaDoneResp,
    SaharaReset,
    SaharaResetResp,
    SaharaMemDebug,
    SaharaMemRead,
    SaharaCommandReady,
    SaharaSwitchMode,
    SaharaExecute,
    SaharaExecuteResp,
    SaharaExecuteData,
    SaharaMemDebug64,
    SaharaMemRead64,
    SaharaReadData64,
    SaharaResetState,
    SaharaWriteData,
    SaharaXML,
}

/// The wire code of a mode.
pub open spec fn spec_mode_code(m: SaharaMode) -> u32 {
    match m {
        SaharaMode::WaitingForImage => 0,
        SaharaMode::MemoryDebug => 2,
        SaharaMode::Command => 3,
    }
}

/// The mode a wire code names, if any.
pub open spec fn spec_mode_of_code(c: u32) -> Option<SaharaMode> {
    if c == 0 {
        Some(SaharaMode::WaitingForImage)
    } else if c == 2 {
        Some(SaharaMode::MemoryDebug)
    } else if c == 3 {
        Some(SaharaMode::Command)
    } else {
        None
    }
}

/// The wire code of a command-mode subcommand.
pub open spec fn spec_cmd_mode_code(c: SaharaCmdModeCmd) -> u32 {
    match c {
        SaharaCmdModeCmd::Nop => 0,
        SaharaCmdModeCmd::ReadSerialNum => 1,
        SaharaCmdModeCmd::ReadHwId => 2,
        SaharaCmdModeCmd::ReadOemKeyHash => 3,
    }
}

/// The command-mode subcommand a wire code names, if any.
pub open spec fn spec_cmd_mode_of_code(c: u32) -> Option<SaharaCmdModeCmd> {
    if c == 0 {
        Some(SaharaCmdModeCmd::Nop)
    } else if c == 1 {
        Some(SaharaCmdModeCmd::ReadSerialNum)
    } else if c == 2 {
        Some(SaharaCmdModeCmd::ReadHwId)
    } else if c == 3 {
        Some(SaharaCmdModeCmd::ReadOemKeyHash)
    } else {
        None
    }
}

/// The wire code of an opcode.
pub open spec fn spec_cmd_code(c: SaharaCmd) -> u32 {
    match c {
        SaharaCmd::SaharaHello => 0x01,
        SaharaCmd::SaharaHelloResp => 0x02,
        SaharaCmd::SaharaReadData => 0x03,
        SaharaCmd::SaharaEndOfImage => 0x04,
        SaharaCmd::SaharaDone => 0x05,
        SaharaCmd::SaharaDoneResp => 0x06,
        SaharaCmd::SaharaReset => 0x07,
        SaharaCmd::SaharaResetResp => 0x08,
        SaharaCmd::SaharaMemDebug => 0x09,
        SaharaCmd::SaharaMemRead => 0x0a,
        SaharaCmd::SaharaCommandReady => 0x0b,
        SaharaCmd::SaharaSwitchMode => 0x0c,
        SaharaCmd::SaharaExecute => 0x0d,
        SaharaCmd::SaharaExecuteResp => 0x0e,
        SaharaCmd::SaharaExecuteData => 0x0f,
        SaharaCmd::SaharaMemDebug64 => 0x10,
        SaharaCmd::SaharaMemRead64 => 0x11,
        SaharaCmd::SaharaReadData64 => 0x12,
        SaharaCmd::SaharaResetState => 0x13,
        SaharaCmd::SaharaWriteData => 0x14,
        SaharaCmd::SaharaXML => 0x6d783f3c,
    }
}

/// The opcode a wire code names, if any.
pub open spec fn spec_cmd_of_code(c: u32) -> Option<SaharaCmd> {
    if c == 0x01 {
        Some(SaharaCmd::SaharaHello)
    } else if c == 0x02 {
        Some(SaharaCmd::SaharaHelloResp)
    } else if c == 0x03 {
        Some(SaharaCmd::SaharaReadData)
    } else if c == 0x04 {
        Some(SaharaCmd::SaharaEndOfImage)
    } else if c == 0x05 {
        Some(SaharaCmd::SaharaDone)
    } else if c == 0x06 {
        Some(SaharaCmd::SaharaDoneResp)
    } else if c == 0x07 {
        Some(SaharaCmd::SaharaReset)
    } else if c == 0x08 {
        Some(SaharaCmd::SaharaResetResp)
    } else if c == 0x09 {
        Some(SaharaCmd::SaharaMemDebug)
    } else if c == 0x0a {
        Some(SaharaCmd::SaharaMemRead)
    } else if c == 0x0b {
        Some(SaharaCmd::SaharaCommandReady)
    } else if c == 0x0c {
        Some(SaharaCmd::SaharaSwitchMode)
    } else if c == 0x0d {
        Some(SaharaCmd::SaharaExecute)
    } else if c == 0x0e {
        Some(SaharaCmd::SaharaExecuteResp)
    } else if c == 0x0f {
        Some(SaharaCmd::SaharaExecuteData)
    } else if c == 0x10 {
        Some(SaharaCmd::SaharaMemDebug64)
    } else if c == 0x11 {
        Some(SaharaCmd::SaharaMemRead64)
    } else if c == 0x12 {
        Some(SaharaCmd::SaharaReadData64)
    } else if c == 0x13 {
        Some(SaharaCmd::SaharaResetState)
    } else if c == 0x14 {
        Some(SaharaCmd::SaharaWriteData)
    } else if c == 0x6d783f3c {
        Some(SaharaCmd::SaharaXML)
    } else {
        None
    }
}

/// Naming a code and reading it back agree.
pub proof fn lemma_cmd_code_roundtrip(c: SaharaCmd)
    ensures
        spec_cmd_of_code(spec_cmd_code(c)) == Some(c),
{
}

/// Hello request sent by the device at session start.
#[derive(Clone, Copy, Debug, PartialEq, Eq, Structural)]
pub struct HelloReq {
    pub ver: u32,
    pub compatible: u32,
    pub max_len: u32,
    pub mode: SaharaMode,
    pub unk0: u32,
    pub unk1: u32,
    pub unk2: u32,
    pub unk3: u32,
    pub unk4: u32,
    pub unk5: u32,
}

/// Host answer to `HelloReq`.
#[derive(Clone, Copy, Debug, PartialEq, Eq, Structural)]
pub struct HelloResp {
    pub ver: u32,
    pub compatible: u32,
    pub status: u32,
    pub mode: SaharaMode,
    pub unk0: u32,
    pub unk1: u32,
    pub unk2: u32,
    pub unk3: u32,
    pub unk4: u32,
    pub unk5: u32,
}

/// Device request for an image window (32-bit form).
#[derive(Clone, Copy, Debug, PartialEq, Eq, Structural)]
pub struct ReadReq {
    pub image: u32,
    pub offset: u32,
    pub len: u32,
}

/// End-of-image notice from the device.
#[derive(Clone, Copy, Debug, PartialEq, Eq, Structural)]
pub struct Eoi {
    pub image: u32,
    pub status: u32,
}

/// Host acknowledgment of end-of-image.
#[derive(Clone, Copy, Debug, PartialEq, Eq, Structural)]
pub struct DoneReq {}

/// Device answer to `DoneReq`; nonzero status ends the upload.
#[derive(Clone, Copy, Debug, PartialEq, Eq, Structural)]
pub struct DoneResp {
    pub status: u32,
}

/// Host request to reset the device.
#[derive(Clone, Copy, Debug, PartialEq, Eq, Structural)]
pub struct ResetReq {}

/// Device acknowledgment of a reset.
#[derive(Clone, Copy, Debug, PartialEq, Eq, Structural)]
pub struct ResetResp {}

/// Device notice that command mode is ready.
#[derive(Clone, Copy, Debug, PartialEq, Eq, Structural)]
pub struct CommandReady {}

/// Host request to switch protocol mode.
#[derive(Clone, Copy, Debug, PartialEq, Eq, Structural)]
pub struct SwitchMode {
    pub mode: SaharaMode,
}

/// Device answer to an `Execute`: how many bytes of response follow.
#[derive(Clone, Copy, Debug, PartialEq, Eq, Structural)]
pub struct ExecResp {
    pub command: SaharaCmdModeCmd,
    pub len: u32,
}

/// Device request to start a 64-bit memory-debug session.
#[derive(Clone, Copy, Debug, PartialEq, Eq, Structural)]
pub struct Debug64Req {
    pub addr: u64,
    pub len: u64,
}

/// Host request to read device memory (64-bit form).
#[derive(Clone, Copy, Debug, PartialEq, Eq, Structural)]
pub struct ReadMem64Req {
    pub addr: u64,
    pub len: u64,
}

/// Device request for an image window (64-bit form).
#[derive(Clone, Copy, Debug, PartialEq, Eq, Structural)]
pub struct ReadData64Req {
    pub image: u64,
    pub offset: u64,
    pub len: u64,
}

/// The body of a Sahara packet; each opcode maps to exactly one layout.
#[derive(Clone, Copy, Debug, PartialEq, Eq, Structural)]
pub enum SaharaPacketBody {
    HelloReq(HelloReq),
    HelloResp(HelloResp),
    ReadReq(ReadReq),
    Eoi(Eoi),
    DoneReq(DoneReq),
    DoneResp(DoneResp),
    ResetReq(ResetReq),
    ResetResp(ResetResp),
    CommandReady(CommandReady),
    SwitchMode(SwitchMode),
    ExecResp(ExecResp),
    Debug64Req(Debug64Req),
    ReadMem64Req(ReadMem64Req),
    ReadData64Req(ReadData64Req),
    Command(SaharaCmdModeCmd),
    FirehoseXml,
}

/// One Sahara packet: opcode, total length, body.
#[derive(Clone, Copy, Debug, PartialEq, Eq, Structural)]
pub struct SaharaPacket {
    pub cmd: SaharaCmd,
    pub len: u32,
    pub body: SaharaPacketBody,
}

/// Errors of the Sahara engine.
#[derive(Clone, Copy, Debug, PartialEq, Eq, Structural)]
pub enum SaharaError {
    /// Fewer bytes than the opcode's layout needs.
    PacketTooShort,
    /// A wire code that no opcode, or no opcode this engine decodes, names.
    UnexpectedOpcode,
    /// The length field disagrees with the opcode's body layout.
    BodyLengthMismatch,
    /// A mode or subcommand field holds an unknown code.
    ModeMismatch,
    /// An image window outside the supplied image.
    UploadRangeOob,
    /// Command mode was entered with no subcommand to run.
    MissingCommand,
    /// A packet the state machine has no transition for.
    UnexpectedPacket,
}

/// Size in bytes of the body layout of each decodable opcode.
pub open spec fn spec_body_size(cmd: SaharaCmd) -> nat {
    match cmd {
        SaharaCmd::SaharaHello => 40,
        SaharaCmd::SaharaHelloResp => 40,
        SaharaCmd::SaharaReadData => 12,
        SaharaCmd::SaharaEndOfImage => 8,
        SaharaCmd::SaharaDone => 0,
        SaharaCmd::SaharaDoneResp => 4,
        SaharaCmd::SaharaReset => 0,
        SaharaCmd::SaharaResetResp => 0,
        SaharaCmd::SaharaCommandReady => 0,
        SaharaCmd::SaharaSwitchMode => 4,
        SaharaCmd::SaharaExecute => 4,
        SaharaCmd::SaharaExecuteResp => 8,
        SaharaCmd::SaharaExecuteData => 4,
        SaharaCmd::SaharaMemDebug64 => 16,
        SaharaCmd::SaharaMemRead64 => 16,
        SaharaCmd::SaharaReadData64 => 24,
        _ => 0,
    }
}

/// The opcodes this engine decodes from the wire.
pub open spec fn spec_cmd_decodable(cmd: SaharaCmd) -> bool {
    match cmd {
        SaharaCmd::SaharaHello => true,
        SaharaCmd::SaharaHelloResp => true,
        SaharaCmd::SaharaReadData => true,
        SaharaCmd::SaharaEndOfImage => true,
        SaharaCmd::SaharaDone => true,
        SaharaCmd::SaharaDoneResp => true,
        SaharaCmd::SaharaResetResp => true,
        SaharaCmd::SaharaCommandReady => true,
        SaharaCmd::SaharaExecuteResp => true,
        SaharaCmd::SaharaExecuteData => true,
        SaharaCmd::SaharaMemDebug64 => true,
        SaharaCmd::SaharaMemRead64 => true,
        SaharaCmd::SaharaReadData64 => true,
        SaharaCmd::SaharaXML => true,
        _ => false,
    }
}

/// Whether a body carries the layout of an opcode.
pub open spec fn spec_body_matches(cmd: SaharaCmd, body: SaharaPacketBody) -> bool {
    match cmd {
        SaharaCmd::SaharaHello => body is HelloReq,
        SaharaCmd::SaharaHelloResp => body is HelloResp,
        SaharaCmd::SaharaReadData => body is ReadReq,
        SaharaCmd::SaharaEndOfImage => body is Eoi,
        SaharaCmd::SaharaDone => body is DoneReq,
        SaharaCmd::SaharaDoneResp => body is DoneResp,
        SaharaCmd::SaharaReset => body is ResetReq,
        SaharaCmd::SaharaResetResp => body is ResetResp,
        SaharaCmd::SaharaCommandReady => body is CommandReady,
        SaharaCmd::SaharaSwitchMode => body is SwitchMode,
        SaharaCmd::SaharaExecute => body is Command,
        SaharaCmd::SaharaExecuteResp => body is ExecResp,
        SaharaCmd::SaharaExecuteData => body is Command,
        SaharaCmd::SaharaMemDebug64 => body is Debug64Req,
        SaharaCmd::SaharaMemRead64 => body is ReadMem64Req,
        SaharaCmd::SaharaReadData64 => body is ReadData64Req,
        SaharaCmd::SaharaXML => body is FirehoseXml,
        _ => false,
    }
}

/// A well-formed packet: the body matches the opcode and the length field
/// is eight plus the body size.
pub open spec fn spec_packet_wf(p: SaharaPacket) -> bool {
    spec_body_matches(p.cmd, p.body) && p.len == 8 + spec_body_size(p.cmd)
}

/// The byte encoding of a packet body.
pub open spec fn spec_encode_body(body: SaharaPacketBody) -> Seq<u8> {
    match body {
        SaharaPacketBody::HelloReq(b) => spec_le32(b.ver) + spec_le32(b.compatible) + spec_le32(
            b.max_len,
        ) + spec_le32(spec_mode_code(b.mode)) + spec_le32(b.unk0) + spec_le32(b.unk1)
            + spec_le32(b.unk2) + spec_le32(b.unk3) + spec_le32(b.unk4) + spec_le32(b.unk5),
        SaharaPacketBody::HelloResp(b) => spec_le32(b.ver) + spec_le32(b.compatible) + spec_le32(
            b.status,
        ) + spec_le32(spec_mode_code(b.mode)) + spec_le32(b.unk0) + spec_le32(b.unk1)
            + spec_le32(b.unk2) + spec_le32(b.unk3) + spec_le32(b.unk4) + spec_le32(b.unk5),
        SaharaPacketBody::ReadReq(b) => spec_le32(b.image) + spec_le32(b.offset) + spec_le32(b.len),
        SaharaPacketBody::Eoi(b) => spec_le32(b.image) + spec_le32(b.status),
        SaharaPacketBody::DoneReq(_) => Seq::empty(),
        SaharaPacketBody::DoneResp(b) => spec_le32(b.status),
        SaharaPacketBody::ResetReq(_) => Seq::empty(),
        SaharaPacketBody::ResetResp(_) => Seq::empty(),
        SaharaPacketBody::CommandReady(_) => Seq::empty(),
        SaharaPacketBody::SwitchMode(b) => spec_le32(spec_mode_code(b.mode)),
        SaharaPacketBody::ExecResp(b) => spec_le32(spec_cmd_mode_code(b.command)) + spec_le32(
            b.len,
        ),
        SaharaPacketBody::Debug64Req(b) => spec_le64(b.addr) + spec_le64(b.len),
        SaharaPacketBody::ReadMem64Req(b) => spec_le64(b.addr) + spec_le64(b.len),
        SaharaPacketBody::ReadData64Req(b) => spec_le64(b.image) + spec_le64(b.offset) + spec_le64(
            b.len,
        ),
        SaharaPacketBody::Command(c) => spec_le32(spec_cmd_mode_code(c)),
        SaharaPacketBody::FirehoseXml => Seq::empty(),
    }
}

/// The byte encoding of a whole packet.
pub open spec fn spec_encode_packet(p: SaharaPacket) -> Seq<u8> {
    spec_le32(spec_cmd_code(p.cmd)) + spec_le32(p.len) + spec_encode_body(p.body)
}


/// Decode a packet body from exactly its layout's bytes.
pub open spec fn spec_decode_body(cmd: SaharaCmd, s: Seq<u8>) -> Result<
    SaharaPacketBody,
    SaharaError,
>
    recommends
        s.len() == spec_body_size(cmd),
{
    match cmd {
        SaharaCmd::SaharaHello => match spec_mode_of_code(
            spec_u32_of_le(s[12], s[13], s[14], s[15]),
        ) {
            Some(mode) => Ok(
                SaharaPacketBody::HelloReq(
                    HelloReq {
                        ver: spec_u32_of_le(s[0], s[1], s[2], s[3]),
                        compatible: spec_u32_of_le(s[4], s[5], s[6], s[7]),
                        max_len: spec_u32_of_le(s[8], s[9], s[10], s[11]),
                        mode,
                        unk0: spec_u32_of_le(s[16], s[17], s[18], s[19]),
                        unk1: spec_u32_of_le(s[20], s[21], s[22], s[23]),
                        unk2: spec_u32_of_le(s[24], s[25], s[26], s[27]),
                        unk3: spec_u32_of_le(s[28], s[29], s[30], s[31]),
                        unk4: spec_u32_of_le(s[32], s[33], s[34], s[35]),
                        unk5: spec_u32_of_le(s[36], s[37], s[38], s[39]),
                    },
                ),
            ),
            None => Err(SaharaError::ModeMismatch),
        },
        SaharaCmd::SaharaHelloResp => match spec_mode_of_code(
            spec_u32_of_le(s[12], s[13], s[14], s[15]),
        ) {
            Some(mode) => Ok(
                SaharaPacketBody::HelloResp(
                    HelloResp {
                        ver: spec_u32_of_le(s[0], s[1], s[2], s[3]),
                        compatible: spec_u32_of_le(s[4], s[5], s[6], s[7]),
                        status: spec_u32_of_le(s[8], s[9], s[10], s[11]),
                        mode,
                        unk0: spec_u32_of_le(s[16], s[17], s[18], s[19]),
                        unk1: spec_u32_of_le(s[20], s[21], s[22], s[23]),
                        unk2: spec_u32_of_le(s[24], s[25], s[26], s[27]),
                        unk3: spec_u32_of_le(s[28], s[29], s[30], s[31]),
                        unk4: spec_u32_of_le(s[32], s[33], s[34], s[35]),
                        unk5: spec_u32_of_le(s[36], s[37], s[38], s[39]),
                    },
                ),
            ),
            None => Err(SaharaError::ModeMismatch),
        },
        SaharaCmd::SaharaReadData => Ok(
            SaharaPacketBody::ReadReq(
                ReadReq {
                    image: spec_u32_of_le(s[0], s[1], s[2], s[3]),
                    offset: spec_u32_of_le(s[4], s[5], s[6], s[7]),
                    len: spec_u32_of_le(s[8], s[9], s[10], s[11]),
                },
            ),
        ),
        SaharaCmd::SaharaEndOfImage => Ok(
            SaharaPacketBody::Eoi(
                Eoi {
                    image: spec_u32_of_le(s[0], s[1], s[2], s[3]),
                    status: spec_u32_of_le(s[4], s[5], s[6], s[7]),
                },
            ),
        ),
        SaharaCmd::SaharaDone => Ok(SaharaPacketBody::DoneReq(DoneReq {})),
        SaharaCmd::SaharaDoneResp => Ok(
            SaharaPacketBody::DoneResp(DoneResp { status: spec_u32_of_le(s[0], s[1], s[2], s[3]) }),
        ),
        SaharaCmd::SaharaResetResp => Ok(SaharaPacketBody::ResetResp(ResetResp {})),
        SaharaCmd::SaharaCommandReady => Ok(SaharaPacketBody::CommandReady(CommandReady {})),
        SaharaCmd::SaharaExecuteResp => match spec_cmd_mode_of_code(
            spec_u32_of_le(s[0], s[1], s[2], s[3]),
        ) {
            Some(command) => Ok(
                SaharaPacketBody::ExecResp(
                    ExecResp { command, len: spec_u32_of_le(s[4], s[5], s[6], s[7]) },
                ),
            ),
            None => Err(SaharaError::UnexpectedPacket),
        },
        SaharaCmd::SaharaExecuteData => match spec_cmd_mode_of_code(
            spec_u32_of_le(s[0], s[1], s[2], s[3]),
        ) {
            Some(command) => Ok(SaharaPacketBody::Command(command)),
            None => Err(SaharaError::UnexpectedPacket),
        },
        SaharaCmd::SaharaMemDebug64 => Ok(
            SaharaPacketBody::Debug64Req(
                Debug64Req {
                    addr: spec_u64_of_le(s[0], s[1], s[2], s[3], s[4], s[5], s[6], s[7]),
                    len: spec_u64_of_le(s[8], s[9], s[10], s[11], s[12], s[13], s[14], s[15]),
                },
            ),
        ),
        SaharaCmd::SaharaMemRead64 => Ok(
            SaharaPacketBody::ReadMem64Req(
                ReadMem64Req {
                    addr: spec_u64_of_le(s[0], s[1], s[2], s[3], s[4], s[5], s[6], s[7]),
                    len: spec_u64_of_le(s[8], s[9], s[10], s[11], s[12], s[13], s[14], s[15]),
                },
            ),
        ),
        SaharaCmd::SaharaReadData64 => Ok(
            SaharaPacketBody::ReadData64Req(
                ReadData64Req {
                    image: spec_u64_of_le(s[0], s[1], s[2], s[3], s[4], s[5], s[6], s[7]),
                    offset: spec_u64_of_le(s[8], s[9], s[10], s[11], s[12], s[13], s[14], s[15]),
                    len: spec_u64_of_le(s[16], s[17], s[18], s[19], s[20], s[21], s[22], s[23]),
                },
            ),
        ),
        SaharaCmd::SaharaXML => Ok(SaharaPacketBody::FirehoseXml),
        _ => Err(SaharaError::UnexpectedOpcode),
    }
}

/// Decode one packet from the front of a receive buffer. Trailing bytes
/// beyond the packet's layout are ignored.
pub open spec fn spec_decode_packet(b: Seq<u8>) -> Result<SaharaPacket, SaharaError> {
    if b.len() < 8 {
        Err(SaharaError::PacketTooShort)
    } else {
        let code = spec_u32_of_le(b[0], b[1], b[2], b[3]);
        let len = spec_u32_of_le(b[4], b[5], b[6], b[7]);
        match spec_cmd_of_code(code) {
            None => Err(SaharaError::UnexpectedOpcode),
            Some(cmd) => if !spec_cmd_decodable(cmd) {
                Err(SaharaError::UnexpectedOpcode)
            } else if cmd is SaharaXML {
                Ok(SaharaPacket { cmd, len, body: SaharaPacketBody::FirehoseXml })
            } else if len != 8 + spec_body_size(cmd) {
                Err(SaharaError::BodyLengthMismatch)
            } else if b.len() < 8 + spec_body_size(cmd) {
                Err(SaharaError::PacketTooShort)
            } else {
                match spec_decode_body(cmd, b.subrange(8, 8 + spec_body_size(cmd) as int)) {
                    Ok(body) => Ok(SaharaPacket { cmd, len, body }),
                    Err(e) => Err(e),
                }
            },
        }
    }
}

/// The wire code of an opcode.
pub fn cmd_code(c: SaharaCmd) -> (r: u32)
    ensures
        r == spec_cmd_code(c),
{
    match c {
        SaharaCmd::SaharaHello => 0x01,
        SaharaCmd::SaharaHelloResp => 0x02,
        SaharaCmd::SaharaReadData => 0x03,
        SaharaCmd::SaharaEndOfImage => 0x04,
        SaharaCmd::SaharaDone => 0x05,
        SaharaCmd::SaharaDoneResp => 0x06,
        SaharaCmd::SaharaReset => 0x07,
        SaharaCmd::SaharaResetResp => 0x08,
        SaharaCmd::SaharaMemDebug => 0x09,
        SaharaCmd::SaharaMemRead => 0x0a,
        SaharaCmd::SaharaCommandReady => 0x0b,
        SaharaCmd::SaharaSwitchMode => 0x0c,
        SaharaCmd::SaharaExecute => 0x0d,
        SaharaCmd::SaharaExecuteResp => 0x0e,
        SaharaCmd::SaharaExecuteData => 0x0f,
        SaharaCmd::SaharaMemDebug64 => 0x10,
        SaharaCmd::SaharaMemRead64 => 0x11,
        SaharaCmd::SaharaReadData64 => 0x12,
        SaharaCmd::SaharaResetState => 0x13,
        SaharaCmd::SaharaWriteData => 0x14,
        SaharaCmd::SaharaXML => 0x6d783f3c,
    }
}

/// The opcode a wire code names, if any.
pub fn cmd_of_code(c: u32) -> (r: Option<SaharaCmd>)
    ensures
        r == spec_cmd_of_code(c),
{
    if c == 0x01 {
        Some(SaharaCmd::SaharaHello)
    } else if c == 0x02 {
        Some(SaharaCmd::SaharaHelloResp)
    } else if c == 0x03 {
        Some(SaharaCmd::SaharaReadData)
    } else if c == 0x04 {
        Some(SaharaCmd::SaharaEndOfImage)
    } else if c == 0x05 {
        Some(SaharaCmd::SaharaDone)
    } else if c == 0x06 {
        Some(SaharaCmd::SaharaDoneResp)
    } else if c == 0x07 {
        Some(SaharaCmd::SaharaReset)
    } else if c == 0x08 {
        Some(SaharaCmd::SaharaResetResp)
    } else if c == 0x09 {
        Some(SaharaCmd::SaharaMemDebug)
    } else if c == 0x0a {
        Some(SaharaCmd::SaharaMemRead)
    } else if c == 0x0b {
        Some(SaharaCmd::SaharaCommandReady)
    } else if c == 0x0c {
        Some(SaharaCmd::SaharaSwitchMode)
    } else if c == 0x0d {
        Some(SaharaCmd::SaharaExecute)
    } else if c == 0x0e {
        Some(SaharaCmd::SaharaExecuteResp)
    } else if c == 0x0f {
        Some(SaharaCmd::SaharaExecuteData)
    } else if c == 0x10 {
        Some(SaharaCmd::SaharaMemDebug64)
    } else if c == 0x11 {
        Some(SaharaCmd::SaharaMemRead64)
    } else if c == 0x12 {
        Some(SaharaCmd::SaharaReadData64)
    } else if c == 0x13 {
        Some(SaharaCmd::SaharaResetState)
    } else if c == 0x14 {
        Some(SaharaCmd::SaharaWriteData)
    } else if c == 0x6d783f3c {
        Some(SaharaCmd::SaharaXML)
    } else {
        None
    }
}

/// The wire code of a mode.
pub fn mode_code(m: SaharaMode) -> (r: u32)
    ensures
        r == spec_mode_code(m),
{
    match m {
        SaharaMode::WaitingForImage => 0,
        SaharaMode::MemoryDebug => 2,
        SaharaMode::Command => 3,
    }
}

/// The mode a wire code names, if any.
pub fn mode_of_code(c: u32) -> (r: Option<SaharaMode>)
    ensures
        r == spec_mode_of_code(c),
{
    if c == 0 {
        Some(SaharaMode::WaitingForImage)
    } else if c == 2 {
        Some(SaharaMode::MemoryDebug)
    } else if c == 3 {
        Some(SaharaMode::Command)
    } else {
        None
    }
}

/// The wire code of a command-mode subcommand.
pub fn cmd_mode_code(c: SaharaCmdModeCmd) -> (r: u32)
    ensures
        r == spec_cmd_mode_code(c),
{
    match c {
        SaharaCmdModeCmd::Nop => 0,
        SaharaCmdModeCmd::ReadSerialNum => 1,
        SaharaCmdModeCmd::ReadHwId => 2,
        SaharaCmdModeCmd::ReadOemKeyHash => 3,
    }
}

/// The command-mode subcommand a wire code names, if any.
pub fn cmd_mode_of_code(c: u32) -> (r: Option<SaharaCmdModeCmd>)
    ensures
        r == spec_cmd_mode_of_code(c),
{
    if c == 0 {
        Some(SaharaCmdModeCmd::Nop)
    } else if c == 1 {
        Some(SaharaCmdModeCmd::ReadSerialNum)
    } else if c == 2 {
        Some(SaharaCmdModeCmd::ReadHwId)
    } else if c == 3 {
        Some(SaharaCmdModeCmd::ReadOemKeyHash)
    } else {
        None
    }
}

/// Serialize a packet: opcode code, length field, body, all little-endian.
pub fn encode_packet(p: &SaharaPacket) -> (r: Vec<u8>)
    ensures
        r@ == spec_encode_packet(*p),
{
    let mut out: Vec<u8> = Vec::new();
    push_le32(&mut out, cmd_code(p.cmd));
    push_le32(&mut out, p.len);
    match &p.body {
        SaharaPacketBody::HelloReq(b) => {
            push_le32(&mut out, b.ver);
            push_le32(&mut out, b.compatible);
            push_le32(&mut out, b.max_len);
            push_le32(&mut out, mode_code(b.mode));
            push_le32(&mut out, b.unk0);
            push_le32(&mut out, b.unk1);
            push_le32(&mut out, b.unk2);
            push_le32(&mut out, b.unk3);
            push_le32(&mut out, b.unk4);
            push_le32(&mut out, b.unk5);
        },
        SaharaPacketBody::HelloResp(b) => {
            push_le32(&mut out, b.ver);
            push_le32(&mut out, b.compatible);
            push_le32(&mut out, b.status);
            push_le32(&mut out, mode_code(b.mode));
            push_le32(&mut out, b.unk0);
            push_le32(&mut out, b.unk1);
            push_le32(&mut out, b.unk2);
            push_le32(&mut out, b.unk3);
            push_le32(&mut out, b.unk4);
            push_le32(&mut out, b.unk5);
        },
        SaharaPacketBody::ReadReq(b) => {
            push_le32(&mut out, b.image);
            push_le32(&mut out, b.offset);
            push_le32(&mut out, b.len);
        },
        SaharaPacketBody::Eoi(b) => {
            push_le32(&mut out, b.image);
            push_le32(&mut out, b.status);
        },
        SaharaPacketBody::DoneReq(_) => {},
        SaharaPacketBody::DoneResp(b) => {
            push_le32(&mut out, b.status);
        },
        SaharaPacketBody::ResetReq(_) => {},
        SaharaPacketBody::ResetResp(_) => {},
        SaharaPacketBody::CommandReady(_) => {},
        SaharaPacketBody::SwitchMode(b) => {
            push_le32(&mut out, mode_code(b.mode));
        },
        SaharaPacketBody::ExecResp(b) => {
            push_le32(&mut out, cmd_mode_code(b.command));
            push_le32(&mut out, b.len);
        },
        SaharaPacketBody::Debug64Req(b) => {
            push_le64(&mut out, b.addr);
            push_le64(&mut out, b.len);
        },
        SaharaPacketBody::ReadMem64Req(b) => {
            push_le64(&mut out, b.addr);
            push_le64(&mut out, b.len);
        },
        SaharaPacketBody::ReadData64Req(b) => {
            push_le64(&mut out, b.image);
            push_le64(&mut out, b.offset);
            push_le64(&mut out, b.len);
        },
        SaharaPacketBody::Command(c) => {
            push_le32(&mut out, cmd_mode_code(*c));
        },
        SaharaPacketBody::FirehoseXml => {},
    }
    proof {
        assert(out@ =~= spec_encode_packet(*p));
    }
    out
}

/// Decode one packet from the front of `buf`; trailing bytes are ignored.
/// The length field is validated against the opcode's body layout.
pub fn decode_packet(buf: &[u8]) -> (r: Result<SaharaPacket, SaharaError>)
    ensures
        r == spec_decode_packet(buf@),
        r is Ok && !(r->Ok_0.cmd is SaharaXML) ==> spec_packet_wf(r->Ok_0),
{
    proof {
        lemma_decode_wf(buf@);
    }
    if buf.len() < 8 {
        return Err(SaharaError::PacketTooShort);
    }
    let code = read_le32(buf, 0);
    let len = read_le32(buf, 4);
    let cmd = match cmd_of_code(code) {
        Some(c) => c,
        None => {
            return Err(SaharaError::UnexpectedOpcode);
        },
    };
    let decodable = match cmd {
        SaharaCmd::SaharaHello => true,
        SaharaCmd::SaharaHelloResp => true,
        SaharaCmd::SaharaReadData => true,
        SaharaCmd::SaharaEndOfImage => true,
        SaharaCmd::SaharaDone => true,
        SaharaCmd::SaharaDoneResp => true,
        SaharaCmd::SaharaResetResp => true,
        SaharaCmd::SaharaCommandReady => true,
        SaharaCmd::SaharaExecuteResp => true,
        SaharaCmd::SaharaExecuteData => true,
        SaharaCmd::SaharaMemDebug64 => true,
        SaharaCmd::SaharaMemRead64 => true,
        SaharaCmd::SaharaReadData64 => true,
        SaharaCmd::SaharaXML => true,
        _ => false,
    };
    if !decodable {
        return Err(SaharaError::UnexpectedOpcode);
    }
    if let SaharaCmd::SaharaXML = cmd {
        return Ok(SaharaPacket { cmd, len, body: SaharaPacketBody::FirehoseXml });
    }
    let body_size: usize = match cmd {
        SaharaCmd::SaharaHello => 40,
        SaharaCmd::SaharaHelloResp => 40,
        SaharaCmd::SaharaReadData => 12,
        SaharaCmd::SaharaEndOfImage => 8,
        SaharaCmd::SaharaDone => 0,
        SaharaCmd::SaharaDoneResp => 4,
        SaharaCmd::SaharaResetResp => 0,
        SaharaCmd::SaharaCommandReady => 0,
        SaharaCmd::SaharaExecuteResp => 8,
        SaharaCmd::SaharaExecuteData => 4,
        SaharaCmd::SaharaMemDebug64 => 16,
        SaharaCmd::SaharaMemRead64 => 16,
        SaharaCmd::SaharaReadData64 => 24,
        _ => 0,
    };
    assert(body_size == spec_body_size(cmd));
    if len != 8 + body_size as u32 {
        return Err(SaharaError::BodyLengthMismatch);
    }
    if buf.len() < 8 + body_size {
        return Err(SaharaError::PacketTooShort);
    }
    let ghost bs = buf@.subrange(8, 8 + spec_body_size(cmd) as int);
    let body = match cmd {
        SaharaCmd::SaharaHello => {
            let mode = match mode_of_code(read_le32(buf, 20)) {
                Some(m) => m,
                None => {
                    return Err(SaharaError::ModeMismatch);
                },
            };
            SaharaPacketBody::HelloReq(
                HelloReq {
                    ver: read_le32(buf, 8),
                    compatible: read_le32(buf, 12),
                    max_len: read_le32(buf, 16),
                    mode,
                    unk0: read_le32(buf, 24),
                    unk1: read_le32(buf, 28),
                    unk2: read_le32(buf, 32),
                    unk3: read_le32(buf, 36),
                    unk4: read_le32(buf, 40),
                    unk5: read_le32(buf, 44),
                },
            )
        },
        SaharaCmd::SaharaHelloResp => {
            let mode = match mode_of_code(read_le32(buf, 20)) {
                Some(m) => m,
                None => {
                    return Err(SaharaError::ModeMismatch);
                },
            };
            SaharaPacketBody::HelloResp(
                HelloResp {
                    ver: read_le32(buf, 8),
                    compatible: read_le32(buf, 12),
                    status: read_le32(buf, 16),
                    mode,
                    unk0: read_le32(buf, 24),
                    unk1: read_le32(buf, 28),
                    unk2: read_le32(buf, 32),
                    unk3: read_le32(buf, 36),
                    unk4: read_le32(buf, 40),
                    unk5: read_le32(buf, 44),
                },
            )
        },
        SaharaCmd::SaharaReadData => SaharaPacketBody::ReadReq(
            ReadReq {
                image: read_le32(buf, 8),
                offset: read_le32(buf, 12),
                len: read_le32(buf, 16),
            },
        ),
        SaharaCmd::SaharaEndOfImage => SaharaPacketBody::Eoi(
            Eoi { image: read_le32(buf, 8), status: read_le32(buf, 12) },
        ),
        SaharaCmd::SaharaDone => SaharaPacketBody::DoneReq(DoneReq {}),
        SaharaCmd::SaharaDoneResp => SaharaPacketBody::DoneResp(
            DoneResp { status: read_le32(buf, 8) },
        ),
        SaharaCmd::SaharaResetResp => SaharaPacketBody::ResetResp(ResetResp {}),
        SaharaCmd::SaharaCommandReady => SaharaPacketBody::CommandReady(CommandReady {}),
        SaharaCmd::SaharaExecuteResp => {
            let command = match cmd_mode_of_code(read_le32(buf, 8)) {
                Some(c) => c,
                None => {
                    return Err(SaharaError::UnexpectedPacket);
                },
            };
            SaharaPacketBody::ExecResp(ExecResp { command, len: read_le32(buf, 12) })
        },
        SaharaCmd::SaharaExecuteData => {
            let command = match cmd_mode_of_code(read_le32(buf, 8)) {
                Some(c) => c,
                None => {
                    return Err(SaharaError::UnexpectedPacket);
                },
            };
            SaharaPacketBody::Command(command)
        },
        SaharaCmd::SaharaMemDebug64 => SaharaPacketBody::Debug64Req(
            Debug64Req { addr: read_le64(buf, 8), len: read_le64(buf, 16) },
        ),
        SaharaCmd::SaharaMemRead64 => SaharaPacketBody::ReadMem64Req(
            ReadMem64Req { addr: read_le64(buf, 8), len: read_le64(buf, 16) },
        ),
        SaharaCmd::SaharaReadData64 => SaharaPacketBody::ReadData64Req(
            ReadData64Req {
                image: read_le64(buf, 8),
                offset: read_le64(buf, 16),
                len: read_le64(buf, 24),
            },
        ),
        _ => {
            return Err(SaharaError::UnexpectedOpcode);
        },
    };
    Ok(SaharaPacket { cmd, len, body })
}

/// A decoded non-sentinel packet is well formed.
proof fn lemma_decode_wf(b: Seq<u8>)
    ensures
        spec_decode_packet(b) is Ok && !(spec_decode_packet(b)->Ok_0.cmd is SaharaXML)
            ==> spec_packet_wf(spec_decode_packet(b)->Ok_0),
{
}

/// Every serialized well-formed packet announces its own size: the length
/// field is eight plus the body size, and the encoding is that long.
pub proof fn lemma_encode_len(p: SaharaPacket)
    requires
        spec_packet_wf(p),
    ensures
        spec_encode_packet(p).len() == p.len,
        p.len == 8 + spec_body_size(p.cmd),
{
}

/// Encoding then decoding a well-formed packet of a decodable opcode gives
/// the packet back.
#[verifier::rlimit(100)]
#[verifier::spinoff_prover]
pub proof fn lemma_encode_decode(p: SaharaPacket)
    requires
        spec_packet_wf(p),
        spec_cmd_decodable(p.cmd),
        !(p.cmd is SaharaXML),
    ensures
        spec_decode_packet(spec_encode_packet(p)) == Ok::<SaharaPacket, SaharaError>(p),
{
    let e = spec_encode_packet(p);
    assert(spec_u32_of_le(e[0], e[1], e[2], e[3]) == spec_cmd_code(p.cmd)) by {
        lemma_le32_roundtrip(spec_cmd_code(p.cmd));
    }
    assert(spec_u32_of_le(e[4], e[5], e[6], e[7]) == p.len) by {
        lemma_le32_roundtrip(p.len);
    }
    let bs = e.subrange(8, 8 + spec_body_size(p.cmd) as int);
    assert(bs =~= spec_encode_body(p.body));
    lemma_body_roundtrip(p.cmd, p.body);
}

/// Decoding body bytes that came from encoding gives the body back.
#[verifier::rlimit(100)]
proof fn lemma_body_roundtrip(cmd: SaharaCmd, body: SaharaPacketBody)
    requires
        spec_body_matches(cmd, body),
        spec_cmd_decodable(cmd),
        !(cmd is SaharaXML),
    ensures
        spec_decode_body(cmd, spec_encode_body(body)) == Ok::<SaharaPacketBody, SaharaError>(body),
{
    let s = spec_encode_body(body);
    match body {
        SaharaPacketBody::HelloReq(b) => {
            lemma_hello_req_roundtrip(b);
        },
        SaharaPacketBody::HelloResp(b) => {
            lemma_hello_resp_roundtrip(b);
        },
        SaharaPacketBody::ReadReq(b) => {
            lemma_le32_roundtrip(b.image);
            lemma_le32_roundtrip(b.offset);
            lemma_le32_roundtrip(b.len);
        },
        SaharaPacketBody::Eoi(b) => {
            lemma_le32_roundtrip(b.image);
            lemma_le32_roundtrip(b.status);
        },
        SaharaPacketBody::DoneReq(_) => {},
        SaharaPacketBody::DoneResp(b) => {
            lemma_le32_roundtrip(b.status);
        },
        SaharaPacketBody::ResetResp(_) => {},
        SaharaPacketBody::CommandReady(_) => {},
        SaharaPacketBody::ExecResp(b) => {
            lemma_le32_roundtrip(spec_cmd_mode_code(b.command));
            lemma_le32_roundtrip(b.len);
        },
        SaharaPacketBody::Command(c) => {
            lemma_le32_roundtrip(spec_cmd_mode_code(c));
        },
        SaharaPacketBody::Debug64Req(b) => {
            lemma_le64_roundtrip(b.addr);
            lemma_le64_roundtrip(b.len);
        },
        SaharaPacketBody::ReadMem64Req(b) => {
            lemma_le64_roundtrip(b.addr);
            lemma_le64_roundtrip(b.len);
        },
        SaharaPacketBody::ReadData64Req(b) => {
            lemma_le64_roundtrip(b.image);
            lemma_le64_roundtrip(b.offset);
            lemma_le64_roundtrip(b.len);
        },
        _ => {},
    }
}


/// Round trip of the forty-byte hello request body.
#[verifier::rlimit(100)]
proof fn lemma_hello_req_roundtrip(b: HelloReq)
    ensures
        spec_decode_body(SaharaCmd::SaharaHello, spec_encode_body(SaharaPacketBody::HelloReq(b)))
            == Ok::<SaharaPacketBody, SaharaError>(SaharaPacketBody::HelloReq(b)),
{
    let s = spec_encode_body(SaharaPacketBody::HelloReq(b));
    lemma_le32_roundtrip(b.ver);
    lemma_le32_roundtrip(b.compatible);
    lemma_le32_roundtrip(b.max_len);
    lemma_le32_roundtrip(spec_mode_code(b.mode));
    lemma_le32_roundtrip(b.unk0);
    lemma_le32_roundtrip(b.unk1);
    lemma_le32_roundtrip(b.unk2);
    lemma_le32_roundtrip(b.unk3);
    lemma_le32_roundtrip(b.unk4);
    lemma_le32_roundtrip(b.unk5);
    assert(spec_u32_of_le(s[12], s[13], s[14], s[15]) == spec_mode_code(b.mode));
    assert(spec_decode_body(SaharaCmd::SaharaHello, s) == Ok::<SaharaPacketBody, SaharaError>(
        SaharaPacketBody::HelloReq(b),
    ));
}

/// Round trip of the forty-byte hello response body.
#[verifier::rlimit(100)]
proof fn lemma_hello_resp_roundtrip(b: HelloResp)
    ensures
        spec_decode_body(
            SaharaCmd::SaharaHelloResp,
            spec_encode_body(SaharaPacketBody::HelloResp(b)),
        ) == Ok::<SaharaPacketBody, SaharaError>(SaharaPacketBody::HelloResp(b)),
{
    let s = spec_encode_body(SaharaPacketBody::HelloResp(b));
    lemma_le32_roundtrip(b.ver);
    lemma_le32_roundtrip(b.compatible);
    lemma_le32_roundtrip(b.status);
    lemma_le32_roundtrip(spec_mode_code(b.mode));
    lemma_le32_roundtrip(b.unk0);
    lemma_le32_roundtrip(b.unk1);
    lemma_le32_roundtrip(b.unk2);
    lemma_le32_roundtrip(b.unk3);
    lemma_le32_roundtrip(b.unk4);
    lemma_le32_roundtrip(b.unk5);
    assert(spec_u32_of_le(s[12], s[13], s[14], s[15]) == spec_mode_code(b.mode));
    assert(spec_decode_body(SaharaCmd::SaharaHelloResp, s) == Ok::<SaharaPacketBody, SaharaError>(
        SaharaPacketBody::HelloResp(b),
    ));
}


/// A code that names an opcode is that opcode's code.
proof fn lemma_cmd_code_section(c: u32)
    ensures
        spec_cmd_of_code(c) is Some ==> spec_cmd_code(spec_cmd_of_code(c)->Some_0) == c,
{
}

/// Re-encoding a decoded body yields the bytes it was decoded from.
#[verifier::rlimit(100)]
proof fn lemma_body_reencode(cmd: SaharaCmd, s: Seq<u8>)
    requires
        s.len() == spec_body_size(cmd),
        spec_decode_body(cmd, s) is Ok,
        !(cmd is SaharaXML),
    ensures
        spec_encode_body(spec_decode_body(cmd, s)->Ok_0) =~= s,
{
    let body = spec_decode_body(cmd, s)->Ok_0;
    match cmd {
        SaharaCmd::SaharaHello => {
            lemma_hello_req_reencode(s);
        },
        SaharaCmd::SaharaHelloResp => {
            lemma_hello_resp_reencode(s);
        },
        SaharaCmd::SaharaReadData => {
            lemma_le32_reencode(s[0], s[1], s[2], s[3]);
            lemma_le32_reencode(s[4], s[5], s[6], s[7]);
            lemma_le32_reencode(s[8], s[9], s[10], s[11]);
        },
        SaharaCmd::SaharaEndOfImage => {
            lemma_le32_reencode(s[0], s[1], s[2], s[3]);
            lemma_le32_reencode(s[4], s[5], s[6], s[7]);
        },
        SaharaCmd::SaharaDoneResp => {
            lemma_le32_reencode(s[0], s[1], s[2], s[3]);
        },
        SaharaCmd::SaharaExecuteResp => {
            lemma_le32_reencode(s[0], s[1], s[2], s[3]);
            lemma_le32_reencode(s[4], s[5], s[6], s[7]);
        },
        SaharaCmd::SaharaExecuteData => {
            lemma_le32_reencode(s[0], s[1], s[2], s[3]);
        },
        SaharaCmd::SaharaMemDebug64 => {
            lemma_le64_reencode(s[0], s[1], s[2], s[3], s[4], s[5], s[6], s[7]);
            lemma_le64_reencode(s[8], s[9], s[10], s[11], s[12], s[13], s[14], s[15]);
        },
        SaharaCmd::SaharaMemRead64 => {
            lemma_le64_reencode(s[0], s[1], s[2], s[3], s[4], s[5], s[6], s[7]);
            lemma_le64_reencode(s[8], s[9], s[10], s[11], s[12], s[13], s[14], s[15]);
        },
        SaharaCmd::SaharaReadData64 => {
            lemma_le64_reencode(s[0], s[1], s[2], s[3], s[4], s[5], s[6], s[7]);
            lemma_le64_reencode(s[8], s[9], s[10], s[11], s[12], s[13], s[14], s[15]);
            lemma_le64_reencode(s[16], s[17], s[18], s[19], s[20], s[21], s[22], s[23]);
        },
        _ => {},
    }
}

/// Re-encoding a decoded hello request yields its bytes.
#[verifier::rlimit(100)]
proof fn lemma_hello_req_reencode(s: Seq<u8>)
    requires
        s.len() == 40,
        spec_decode_body(SaharaCmd::SaharaHello, s) is Ok,
    ensures
        spec_encode_body(spec_decode_body(SaharaCmd::SaharaHello, s)->Ok_0) =~= s,
{
    lemma_le32_reencode(s[0], s[1], s[2], s[3]);
    lemma_le32_reencode(s[4], s[5], s[6], s[7]);
    lemma_le32_reencode(s[8], s[9], s[10], s[11]);
    lemma_le32_reencode(s[12], s[13], s[14], s[15]);
    lemma_le32_reencode(s[16], s[17], s[18], s[19]);
    lemma_le32_reencode(s[20], s[21], s[22], s[23]);
    lemma_le32_reencode(s[24], s[25], s[26], s[27]);
    lemma_le32_reencode(s[28], s[29], s[30], s[31]);
    lemma_le32_reencode(s[32], s[33], s[34], s[35]);
    lemma_le32_reencode(s[36], s[37], s[38], s[39]);
}

/// Re-encoding a decoded hello response yields its bytes.
#[verifier::rlimit(100)]
proof fn lemma_hello_resp_reencode(s: Seq<u8>)
    requires
        s.len() == 40,
        spec_decode_body(SaharaCmd::SaharaHelloResp, s) is Ok,
    ensures
        spec_encode_body(spec_decode_body(SaharaCmd::SaharaHelloResp, s)->Ok_0) =~= s,
{
    lemma_le32_reencode(s[0], s[1], s[2], s[3]);
    lemma_le32_reencode(s[4], s[5], s[6], s[7]);
    lemma_le32_reencode(s[8], s[9], s[10], s[11]);
    lemma_le32_reencode(s[12], s[13], s[14], s[15]);
    lemma_le32_reencode(s[16], s[17], s[18], s[19]);
    lemma_le32_reencode(s[20], s[21], s[22], s[23]);
    lemma_le32_reencode(s[24], s[25], s[26], s[27]);
    lemma_le32_reencode(s[28], s[29], s[30], s[31]);
    lemma_le32_reencode(s[32], s[33], s[34], s[35]);
    lemma_le32_reencode(s[36], s[37], s[38], s[39]);
}

/// Decoding then re-encoding yields byte-equal output: a packet decoded
/// from a buffer re-serializes to exactly the bytes it was decoded from.
#[verifier::rlimit(100)]
pub proof fn lemma_decode_encode(b: Seq<u8>)
    requires
        spec_decode_packet(b) is Ok,
    ensures
        spec_encode_packet(spec_decode_packet(b)->Ok_0) =~= b.take(
            8 + spec_body_size(spec_decode_packet(b)->Ok_0.cmd) as int,
        ),
{
    let p = spec_decode_packet(b)->Ok_0;
    let code = spec_u32_of_le(b[0], b[1], b[2], b[3]);
    lemma_cmd_code_section(code);
    lemma_le32_reencode(b[0], b[1], b[2], b[3]);
    lemma_le32_reencode(b[4], b[5], b[6], b[7]);
    if p.cmd is SaharaXML {
        assert(spec_encode_packet(p) =~= b.take(8));
    } else {
        let bs = b.subrange(8, 8 + spec_body_size(p.cmd) as int);
        lemma_body_reencode(p.cmd, bs);
        assert(spec_encode_packet(p) =~= b.take(8 + spec_body_size(p.cmd) as int));
    }
}

/// Protocol version this host announces.
pub const SAHARA_VERSION: u32 = 2;

/// The hello response the host sends for a requested mode: version two,
/// compatible one, success status.
pub open spec fn spec_hello_resp_packet(mode: SaharaMode) -> SaharaPacket {
    SaharaPacket {
        cmd: SaharaCmd::SaharaHelloResp,
        len: 48,
        body: SaharaPacketBody::HelloResp(
            HelloResp {
                ver: 2,
                compatible: 1,
                status: 0,
                mode,
                unk0: 0,
                unk1: 0,
                unk2: 0,
                unk3: 0,
                unk4: 0,
                unk5: 0,
            },
        ),
    }
}

/// The done packet.
pub open spec fn spec_done_packet() -> SaharaPacket {
    SaharaPacket { cmd: SaharaCmd::SaharaDone, len: 8, body: SaharaPacketBody::DoneReq(DoneReq {}) }
}

/// The execute packet for a command-mode subcommand.
pub open spec fn spec_execute_packet(c: SaharaCmdModeCmd) -> SaharaPacket {
    SaharaPacket { cmd: SaharaCmd::SaharaExecute, len: 12, body: SaharaPacketBody::Command(c) }
}

/// The execute-data packet for a command-mode subcommand.
pub open spec fn spec_execute_data_packet(c: SaharaCmdModeCmd) -> SaharaPacket {
    SaharaPacket { cmd: SaharaCmd::SaharaExecuteData, len: 12, body: SaharaPacketBody::Command(c) }
}

/// The reset packet.
pub open spec fn spec_reset_packet() -> SaharaPacket {
    SaharaPacket {
        cmd: SaharaCmd::SaharaReset,
        len: 8,
        body: SaharaPacketBody::ResetReq(ResetReq {}),
    }
}

/// The switch-mode packet.
pub open spec fn spec_switch_mode_packet(mode: SaharaMode) -> SaharaPacket {
    SaharaPacket {
        cmd: SaharaCmd::SaharaSwitchMode,
        len: 12,
        body: SaharaPacketBody::SwitchMode(SwitchMode { mode }),
    }
}

/// The 64-bit memory-read request packet.
pub open spec fn spec_mem_read64_packet(addr: u64, len: u64) -> SaharaPacket {
    SaharaPacket {
        cmd: SaharaCmd::SaharaMemRead64,
        len: 24,
        body: SaharaPacketBody::ReadMem64Req(ReadMem64Req { addr, len }),
    }
}

/// Serialize the hello response for `mode`.
pub fn sahara_send_hello_rsp(mode: SaharaMode) -> (r: Vec<u8>)
    ensures
        r@ == spec_encode_packet(spec_hello_resp_packet(mode)),
        spec_packet_wf(spec_hello_resp_packet(mode)),
{
    let pkt = SaharaPacket {
        cmd: SaharaCmd::SaharaHelloResp,
        len: 48,
        body: SaharaPacketBody::HelloResp(
            HelloResp {
                ver: SAHARA_VERSION,
                compatible: 1,
                status: 0,
                mode,
                unk0: 0,
                unk1: 0,
                unk2: 0,
                unk3: 0,
                unk4: 0,
                unk5: 0,
            },
        ),
    };
    encode_packet(&pkt)
}

/// Serialize the done packet.
pub fn sahara_send_done() -> (r: Vec<u8>)
    ensures
        r@ == spec_encode_packet(spec_done_packet()),
        spec_packet_wf(spec_done_packet()),
{
    let pkt = SaharaPacket {
        cmd: SaharaCmd::SaharaDone,
        len: 8,
        body: SaharaPacketBody::DoneReq(DoneReq {}),
    };
    encode_packet(&pkt)
}

/// Serialize the execute packet for a command-mode subcommand.
pub fn sahara_send_cmd_exec(command: SaharaCmdModeCmd) -> (r: Vec<u8>)
    ensures
        r@ == spec_encode_packet(spec_execute_packet(command)),
        spec_packet_wf(spec_execute_packet(command)),
{
    let pkt = SaharaPacket {
        cmd: SaharaCmd::SaharaExecute,
        len: 12,
        body: SaharaPacketBody::Command(command),
    };
    encode_packet(&pkt)
}

/// Serialize the execute-data packet for a command-mode subcommand.
pub fn sahara_send_cmd_data(command: SaharaCmdModeCmd) -> (r: Vec<u8>)
    ensures
        r@ == spec_encode_packet(spec_execute_data_packet(command)),
        spec_packet_wf(spec_execute_data_packet(command)),
{
    let pkt = SaharaPacket {
        cmd: SaharaCmd::SaharaExecuteData,
        len: 12,
        body: SaharaPacketBody::Command(command),
    };
    encode_packet(&pkt)
}

/// Serialize the reset packet.
pub fn sahara_reset() -> (r: Vec<u8>)
    ensures
        r@ == spec_encode_packet(spec_reset_packet()),
        spec_packet_wf(spec_reset_packet()),
{
    let pkt = SaharaPacket {
        cmd: SaharaCmd::SaharaReset,
        len: 8,
        body: SaharaPacketBody::ResetReq(ResetReq {}),
    };
    encode_packet(&pkt)
}

/// Serialize the switch-mode packet.
pub fn sahara_switch_mode(mode: SaharaMode) -> (r: Vec<u8>)
    ensures
        r@ == spec_encode_packet(spec_switch_mode_packet(mode)),
        spec_packet_wf(spec_switch_mode_packet(mode)),
{
    let pkt = SaharaPacket {
        cmd: SaharaCmd::SaharaSwitchMode,
        len: 12,
        body: SaharaPacketBody::SwitchMode(SwitchMode { mode }),
    };
    encode_packet(&pkt)
}

/// Serialize the 64-bit memory-read request.
pub fn sahara_read_mem64(addr: u64, len: u64) -> (r: Vec<u8>)
    ensures
        r@ == spec_encode_packet(spec_mem_read64_packet(addr, len)),
        spec_packet_wf(spec_mem_read64_packet(addr, len)),
{
    let pkt = SaharaPacket {
        cmd: SaharaCmd::SaharaMemRead64,
        len: 24,
        body: SaharaPacketBody::ReadMem64Req(ReadMem64Req { addr, len }),
    };
    encode_packet(&pkt)
}

/// The image a device request addresses: with a single supplied image all
/// requests map to it, whatever the request's image field says.
pub open spec fn spec_image_index(num_images: nat, idx: u64) -> int {
    if num_images == 1 {
        0
    } else {
        idx as int
    }
}

/// Select the window of the supplied images that a device read request
/// asks for. Fails exactly when the image or the window is out of range.
pub fn sahara_send_img_to_device(
    images: &Vec<Vec<u8>>,
    image_idx: u64,
    image_offset: u64,
    image_len: u64,
) -> (r: Result<Vec<u8>, SaharaError>)
    ensures
        r is Ok <==> {
            let i = spec_image_index(images@.len(), image_idx);
            &&& 0 <= i < images@.len()
            &&& image_offset + image_len <= images@[i]@.len()
        },
        r is Ok ==> r->Ok_0@ == images@[spec_image_index(images@.len(), image_idx)]@.subrange(
            image_offset as int,
            image_offset + image_len,
        ),
        r is Err ==> r->Err_0 == SaharaError::UploadRangeOob,
{
    let image: u64 = if images.len() == 1 {
        0
    } else {
        image_idx
    };
    if image >= images.len() as u64 {
        return Err(SaharaError::UploadRangeOob);
    }
    let buf = &images[image as usize];
    let blen: u64 = buf.len() as u64;
    if image_offset > blen || image_len > blen - image_offset {
        return Err(SaharaError::UploadRangeOob);
    }
    proof {
        assert(image_offset <= usize::MAX && image_len <= usize::MAX);
    }
    let start: usize = image_offset as usize;
    let count: usize = image_len as usize;
    let buf_n: usize = buf.len();
    proof {
        assert(start == image_offset && count == image_len);
        assert(start + count <= buf_n);
    }
    let mut out: Vec<u8> = Vec::new();
    let mut k: usize = 0;
    while k < count
        invariant
            buf_n == buf@.len(),
            start + count <= buf_n,
            k <= count,
            out@ == buf@.subrange(start as int, start + k),
        decreases count - k,
    {
        out.push(buf[start + k]);
        k = k + 1;
        proof {
            assert(out@ =~= buf@.subrange(start as int, start + k));
        }
    }
    Ok(out)
}

/// What the engine does next after one incoming packet.
pub enum SaharaStep {
    /// Write these bytes and keep listening.
    Reply(Vec<u8>),
    /// Write this window of the caller-supplied images and keep listening.
    SendImage { image: u64, offset: u64, len: u64 },
    /// Write `request`, read exactly `response_len` bytes, write `switch`,
    /// and finish with the bytes read.
    ExecuteExchange { request: Vec<u8>, response_len: u32, switch: Vec<u8> },
    /// Write `request`, then read a ramdump table of `table_len` bytes.
    Ramdump { request: Vec<u8>, table_len: u64 },
    /// Ignore the packet and keep listening.
    Continue,
    /// The device already speaks Firehose; the session is over.
    FinishHandoff,
    /// The session ended with no payload to return.
    FinishEmpty,
    /// The packet has no transition.
    Fail(SaharaError),
}

/// One transition of the Sahara state machine: how the host answers the
/// packet `pkt`, when running toward `mode` with an optional command-mode
/// subcommand and `num_images` caller-supplied images.
pub fn sahara_step(
    mode: SaharaMode,
    command: Option<SaharaCmdModeCmd>,
    num_images: usize,
    pkt: &SaharaPacket,
) -> (r: SaharaStep)
    requires
        spec_body_matches(pkt.cmd, pkt.body),
    ensures
        pkt.cmd is SaharaHello ==> (r matches SaharaStep::Reply(b) && b@ == spec_encode_packet(
            spec_hello_resp_packet(mode),
        )),
        pkt.cmd is SaharaReadData ==> (r matches SaharaStep::SendImage { image, offset, len }
            && image == pkt.body->ReadReq_0.image as u64 && offset == pkt.body->ReadReq_0.offset
            as u64 && len == pkt.body->ReadReq_0.len as u64),
        pkt.cmd is SaharaReadData64 ==> (r matches SaharaStep::SendImage { image, offset, len }
            && image == pkt.body->ReadData64Req_0.image
            && offset == pkt.body->ReadData64Req_0.offset
            && len == pkt.body->ReadData64Req_0.len),
        pkt.cmd is SaharaEndOfImage ==> (if pkt.body->Eoi_0.status == 0 {
            (r matches SaharaStep::Reply(b) && b@ == spec_encode_packet(spec_done_packet()))
        } else {
            r is FinishEmpty
        }),
        pkt.cmd is SaharaDoneResp ==> (if pkt.body->DoneResp_0.status == 1 || num_images == 1 {
            r is FinishEmpty
        } else {
            r is Continue
        }),
        pkt.cmd is SaharaCommandReady ==> (match command {
            Some(c) => (r matches SaharaStep::Reply(b) && b@ == spec_encode_packet(
                spec_execute_packet(c),
            )),
            None => r == SaharaStep::Fail(SaharaError::MissingCommand),
        }),
        pkt.cmd is SaharaExecuteResp ==> (r matches SaharaStep::ExecuteExchange {
            request,
            response_len,
            switch,
        } && request@ == spec_encode_packet(spec_execute_data_packet(pkt.body->ExecResp_0.command))
            && response_len == pkt.body->ExecResp_0.len && switch@ == spec_encode_packet(
            spec_switch_mode_packet(SaharaMode::WaitingForImage),
        )),
        pkt.cmd is SaharaMemDebug64 ==> (r matches SaharaStep::Ramdump { request, table_len }
            && request@ == spec_encode_packet(
            spec_mem_read64_packet(pkt.body->Debug64Req_0.addr, pkt.body->Debug64Req_0.len),
        ) && table_len == pkt.body->Debug64Req_0.len),
        pkt.cmd is SaharaResetResp ==> r is FinishEmpty,
        pkt.cmd is SaharaXML ==> r is FinishHandoff,
        (pkt.cmd is SaharaHelloResp || pkt.cmd is SaharaDone || pkt.cmd is SaharaExecuteData)
            ==> r == SaharaStep::Fail(SaharaError::UnexpectedPacket),
{
    match &pkt.body {
        SaharaPacketBody::HelloReq(_req) => {
            // Memory-debug mode is only entered when both sides name it,
            // which leaves the requested mode unchanged either way.
            SaharaStep::Reply(sahara_send_hello_rsp(mode))
        },
        SaharaPacketBody::ReadReq(rr) => SaharaStep::SendImage {
            image: rr.image as u64,
            offset: rr.offset as u64,
            len: rr.len as u64,
        },
        SaharaPacketBody::ReadData64Req(rr) => SaharaStep::SendImage {
            image: rr.image,
            offset: rr.offset,
            len: rr.len,
        },
        SaharaPacketBody::Eoi(req) => {
            if req.status == 0 {
                SaharaStep::Reply(sahara_send_done())
            } else {
                SaharaStep::FinishEmpty
            }
        },
        SaharaPacketBody::DoneResp(req) => {
            if req.status == 1 || num_images == 1 {
                SaharaStep::FinishEmpty
            } else {
                SaharaStep::Continue
            }
        },
        SaharaPacketBody::CommandReady(_) => {
            match command {
                Some(c) => SaharaStep::Reply(sahara_send_cmd_exec(c)),
                None => SaharaStep::Fail(SaharaError::MissingCommand),
            }
        },
        SaharaPacketBody::ExecResp(resp) => SaharaStep::ExecuteExchange {
            request: sahara_send_cmd_data(resp.command),
            response_len: resp.len,
            switch: sahara_switch_mode(SaharaMode::WaitingForImage),
        },
        SaharaPacketBody::Debug64Req(req) => SaharaStep::Ramdump {
            request: sahara_read_mem64(req.addr, req.len),
            table_len: req.len,
        },
        SaharaPacketBody::ResetResp(_) => SaharaStep::FinishEmpty,
        SaharaPacketBody::FirehoseXml => SaharaStep::FinishHandoff,
        _ => SaharaStep::Fail(SaharaError::UnexpectedPacket),
    }
}

/// One row of the ramdump region table: 56 bytes on the wire.
#[derive(Clone, Debug)]
pub struct RamdumpTable64 {
    pub save_pref: u64,
    pub base: u64,
    pub len: u64,
    pub description: Vec<u8>,
    pub filename: Vec<u8>,
}

/// The table row encoded at offset `64 * k` of `b`.
pub open spec fn spec_ramdump_entry(b: Seq<u8>, k: int) -> (u64, u64, u64, Seq<u8>, Seq<u8>)
    recommends
        0 <= k,
        64 * (k + 1) <= b.len(),
{
    let o = 64 * k;
    (
        spec_u64_of_le(b[o], b[o + 1], b[o + 2], b[o + 3], b[o + 4], b[o + 5], b[o + 6], b[o + 7]),
        spec_u64_of_le(
            b[o + 8],
            b[o + 9],
            b[o + 10],
            b[o + 11],
            b[o + 12],
            b[o + 13],
            b[o + 14],
            b[o + 15],
        ),
        spec_u64_of_le(
            b[o + 16],
            b[o + 17],
            b[o + 18],
            b[o + 19],
            b[o + 20],
            b[o + 21],
            b[o + 22],
            b[o + 23],
        ),
        b.subrange(o + 24, o + 44),
        b.subrange(o + 44, o + 64),
    )
}

/// Parse a ramdump table: one 64-byte row per entry, save preference,
/// base, length, then a 20-byte description and a 20-byte file name.
pub fn sahara_parse_ramdump_table(buf: &[u8]) -> (r: Vec<RamdumpTable64>)
    ensures
        r@.len() == buf@.len() / 64,
        forall|k: int|
            0 <= k < r@.len() ==> {
                let e = spec_ramdump_entry(buf@, k);
                &&& (#[trigger] r@[k]).save_pref == e.0
                &&& r@[k].base == e.1
                &&& r@[k].len == e.2
                &&& r@[k].description@ == buf@.subrange(64 * k + 24, 64 * k + 44)
                &&& r@[k].filename@ == buf@.subrange(64 * k + 44, 64 * k + 64)
            },
{
    let buf_n: usize = buf.len();
    let n: usize = buf_n / 64;
    proof {
        assert(64 * (n as int) <= buf_n as int);
    }
    let mut out: Vec<RamdumpTable64> = Vec::new();
    let mut k: usize = 0;
    while k < n
        invariant
            buf_n == buf@.len(),
            n == buf@.len() / 64,
            64 * (n as int) <= buf_n as int,
            k <= n,
            out@.len() == k,
            forall|j: int|
                0 <= j < k ==> {
                    let e = spec_ramdump_entry(buf@, j);
                    &&& (#[trigger] out@[j]).save_pref == e.0
                    &&& out@[j].base == e.1
                    &&& out@[j].len == e.2
                    &&& out@[j].description@ == buf@.subrange(64 * j + 24, 64 * j + 44)
                    &&& out@[j].filename@ == buf@.subrange(64 * j + 44, 64 * j + 64)
                },
        decreases n - k,
    {
        proof {
            assert(64 * (k + 1) <= 64 * (n as int));
            assert(64 * (k + 1) <= buf_n as int);
        }
        let o: usize = 64 * k;
        let save_pref = read_le64(buf, o);
        let base = read_le64(buf, o + 8);
        let len = read_le64(buf, o + 16);
        let mut description: Vec<u8> = Vec::new();
        let mut i: usize = 0;
        while i < 20
            invariant
                buf_n == buf@.len(),
                o + 64 <= buf_n,
                i <= 20,
                description@ == buf@.subrange(o + 24, o + 24 + i),
            decreases 20 - i,
        {
            description.push(buf[o + 24 + i]);
            i = i + 1;
            proof {
                assert(description@ =~= buf@.subrange(o + 24, o + 24 + i));
            }
        }
        let mut filename: Vec<u8> = Vec::new();
        let mut i2: usize = 0;
        while i2 < 20
            invariant
                buf_n == buf@.len(),
                o + 64 <= buf_n,
                i2 <= 20,
                filename@ == buf@.subrange(o + 44, o + 44 + i2),
            decreases 20 - i2,
        {
            filename.push(buf[o + 44 + i2]);
            i2 = i2 + 1;
            proof {
                assert(filename@ =~= buf@.subrange(o + 44, o + 44 + i2));
            }
        }
        out.push(RamdumpTable64 { save_pref, base, len, description, filename });
        k = k + 1;
    }
    out
}


/// The chip serial the device reports: the first word of the command
/// response, shown as `0x` and lower-case hex. Nothing when the reply is
/// shorter than one word.
pub fn sahara_chip_serial(response: &[u8]) -> (r: Option<String>)
    ensures
        r is Some <==> response@.len() >= 4,
        r matches Some(s) ==> s@ == "0x"@ + crate::strings::spec_hex_lower(
            spec_u32_of_le(response@[0], response@[1], response@[2], response@[3]) as nat,
        ),
{
    if response.len() < 4 {
        return None;
    }
    let sn = read_le32(response, 0);
    let mut out = String::new();
    out.append("0x");
    let hex = crate::strings::u64_to_hex_lower(sn as u64);
    out.append(hex.as_str());
    Some(out)
}

/// The OEM key hash the device reports: `0x` and the lower-case hex of
/// the first third of the reply.
pub fn sahara_oem_key_hash(response: &[u8]) -> (r: String)
    ensures
        r@ == "0x"@ + crate::strings::spec_hex_of_bytes(
            response@.take(response@.len() as int / 3),
        ),
{
    let take: usize = response.len() / 3;
    let mut prefix: Vec<u8> = Vec::new();
    let mut i: usize = 0;
    while i < take
        invariant
            take <= response@.len(),
            i <= take,
            prefix@ == response@.take(take as int).take(i as int),
        decreases take - i,
    {
        prefix.push(response[i]);
        i = i + 1;
        proof {
            assert(prefix@ =~= response@.take(take as int).take(i as int));
        }
    }
    proof {
        assert(response@.take(take as int).take(take as int) =~= response@.take(take as int));
        assert(take as int == response@.len() as int / 3);
    }
    let mut out = String::new();
    out.append("0x");
    let hex = crate::strings::hex_of_bytes(prefix.as_slice());
    out.append(hex.as_str());
    out
}

} // verus!
