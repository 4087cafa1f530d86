//! The TFTP server: requests, downloads and uploads in numbered blocks.

use vstd::prelude::*;
use vstd::utf8::*;

use crate::common;
use crate::common::{is_within_root, CanonicalPath, PathFacts};
use crate::digits;
use crate::digits::decimal_string;
use crate::paths;
use crate::paths::{confine, Platform};
use crate::text;
use crate::text::{append_bytes, find_byte};
use crate::unicode;
use crate::unicode::text_lossy;

verus! {

/// The bytes of data in a full block.
pub const BLOCK_SIZE: usize = 512;

/// The bytes that an upload may have at most.
pub const MAX_FILE_SIZE: usize = 67_108_864;

/// A datagram longer than this is cut off.
pub const MAX_DATAGRAM: usize = 516;

pub const OPCODE_RRQ: u16 = 1;

pub const OPCODE_WRQ: u16 = 2;

pub const OPCODE_DATA: u16 = 3;

pub const OPCODE_ACK: u16 = 4;

pub const OPCODE_ERROR: u16 = 5;

/// How the server is set up.
pub struct TftpConfig {
    pub root_dir: String,
    pub port: u16,
    pub bind_addr: String,
}

impl Clone for TftpConfig {
    fn clone(&self) -> (r: Self)
        ensures
            r == *self,
    {
        TftpConfig {
            root_dir: self.root_dir.clone(),
            port: self.port,
            bind_addr: self.bind_addr.clone(),
        }
    }
}

// ---------------------------------------------------------------------------
// Packets
// ---------------------------------------------------------------------------

/// A 16-bit number as two bytes, the high one first.
pub open spec fn big_endian(n: u16) -> Seq<u8> {
    seq![(n / 256) as u8, (n % 256) as u8]
}

/// The 16-bit number that two bytes write, the high one first.
pub open spec fn from_big_endian(hi: u8, lo: u8) -> u16 {
    (hi * 256 + lo) as u16
}

/// The packet that acknowledges a block.
pub open spec fn ack_packet(block: u16) -> Seq<u8> {
    big_endian(OPCODE_ACK) + big_endian(block)
}

/// The packet that carries a block of data.
pub open spec fn data_packet(block: u16, data: Seq<u8>) -> Seq<u8> {
    big_endian(OPCODE_DATA) + big_endian(block) + data
}

/// The packet that reports an error.
pub open spec fn error_packet(code: u16, msg: Seq<char>) -> Seq<u8> {
    (big_endian(OPCODE_ERROR) + big_endian(code) + encode_utf8(msg)).push(0)
}

/// What is written with the high byte first is read back.
pub proof fn law_big_endian_round_trip(n: u16)
    ensures
        from_big_endian(big_endian(n)[0], big_endian(n)[1]) == n,
{
}

fn read_u16(hi: u8, lo: u8) -> (n: u16)
    ensures
        n == from_big_endian(hi, lo),
{
    hi as u16 * 256 + lo as u16
}

fn push_u16(v: &mut Vec<u8>, n: u16)
    ensures
        final(v)@ == old(v)@ + big_endian(n),
{
    v.push((n / 256) as u8);
    v.push((n % 256) as u8);
    assert(v@ =~= old(v)@ + big_endian(n));
}

/// The packet that acknowledges a block.
pub fn build_ack(block: u16) -> (pkt: [u8; 4])
    ensures
        pkt@ == ack_packet(block),
        pkt[0] == 0 && pkt[1] == 4 && pkt[2] * 256 + pkt[3] == block,
{
    let pkt: [u8; 4] = [0, 4, (block / 256) as u8, (block % 256) as u8];
    assert(pkt@ =~= ack_packet(block));
    pkt
}

/// The packet that carries a block of data.
pub fn build_data(block: u16, data: &[u8]) -> (pkt: Vec<u8>)
    ensures
        pkt@ == data_packet(block, data@),
        pkt[0] == 0 && pkt[1] == 3 && pkt[2] * 256 + pkt[3] == block,
        pkt@.skip(4) == data@,
{
    proof {
        law_packets(block, data@, Seq::empty());
    }
    let mut pkt: Vec<u8> = Vec::new();
    push_u16(&mut pkt, OPCODE_DATA);
    push_u16(&mut pkt, block);
    append_bytes(&mut pkt, data);
    assert(pkt@ =~= data_packet(block, data@));
    pkt
}

/// The packet that reports an error.
pub fn build_error(code: u16, msg: &str) -> (pkt: Vec<u8>)
    ensures
        pkt@ == error_packet(code, msg@),
        pkt[0] == 0 && pkt[1] == 5 && pkt[2] * 256 + pkt[3] == code,
        pkt@.skip(4) == encode_utf8(msg@) + seq![0u8],
{
    proof {
        law_packets(code, Seq::empty(), msg@);
    }
    let mut pkt: Vec<u8> = Vec::new();
    push_u16(&mut pkt, OPCODE_ERROR);
    push_u16(&mut pkt, code);
    append_bytes(&mut pkt, msg.as_bytes());
    pkt.push(0);
    assert(pkt@ =~= error_packet(code, msg@));
    pkt
}

/// Whether a packet reports the error `code`, less than 256, in these words.
pub open spec fn reports(pkt: Seq<u8>, code: int, msg: Seq<char>) -> bool {
    &&& pkt.len() > 4
    &&& pkt[0] == 0 && pkt[1] == 5 && pkt[2] == 0 && pkt[3] == code
    &&& pkt.subrange(4, pkt.len() - 1) == encode_utf8(msg)
    &&& pkt.last() == 0
}

/// An error packet reports its code in its words.
pub proof fn law_error_reports(code: u16, msg: Seq<char>)
    requires
        code < 256,
    ensures
        reports(error_packet(code, msg), code as int, msg),
{
    let pkt = error_packet(code, msg);
    assert(pkt.subrange(4, pkt.len() - 1) =~= encode_utf8(msg));
}

// ---------------------------------------------------------------------------
// Requests
// ---------------------------------------------------------------------------

/// The bytes of the file name in a request, and those of the mode: both end in a zero byte.
pub open spec fn request_fields(data: Seq<u8>) -> Option<(Seq<u8>, Seq<u8>)> {
    let rest = data.skip(2);
    let n = text::first_at(rest, 0u8);
    let tail = rest.skip(n + 1);
    let m = text::first_at(tail, 0u8);
    if n + 1 < rest.len() && m < tail.len() {
        Some((rest.take(n), tail.take(m)))
    } else {
        None
    }
}

/// What follows the code in a request: a name, a mode, a zero byte behind each of them, and whatever
/// else the client sends.
pub open spec fn request_body(name: Seq<u8>, mode: Seq<u8>, tail: Seq<u8>) -> Seq<u8> {
    name + seq![0u8] + mode + seq![0u8] + tail
}

/// Whether a request holds this name and this mode, neither of them with a zero byte in it.
pub open spec fn holds_fields(
    data: Seq<u8>,
    name: Seq<u8>,
    mode: Seq<u8>,
    tail: Seq<u8>,
) -> bool {
    &&& data.len() >= 2
    &&& data.skip(2) == request_body(name, mode, tail)
    &&& !name.contains(0u8)
    &&& !mode.contains(0u8)
}

/// Whether there are zero bytes at two places behind the code of a request.
pub open spec fn two_zeros(data: Seq<u8>) -> bool {
    exists|i: int, j: int|
        2 <= i < j < data.len() && #[trigger] data[i] == 0u8 && #[trigger] data[j] == 0u8
}

/// A name and a mode, each with a zero byte behind it, are what a request is read as, whatever
/// follows them.
pub proof fn law_request_is_read(data: Seq<u8>, name: Seq<u8>, mode: Seq<u8>, tail: Seq<u8>)
    requires
        holds_fields(data, name, mode, tail),
    ensures
        request_fields(data) == Some((name, mode)),
        two_zeros(data),
{
    let rest = data.skip(2);
    let n = text::first_at(rest, 0u8);
    text::lemma_first_at(rest, 0u8);
    assert(rest[name.len() as int] == 0u8);
    assert(rest.contains(0u8));
    if n < name.len() {
        assert(rest[n] == name[n]);
    }
    assert(n == name.len());
    let behind = rest.skip(n + 1);
    assert(behind =~= mode + seq![0u8] + tail);
    let m = text::first_at(behind, 0u8);
    text::lemma_first_at(behind, 0u8);
    assert(behind[mode.len() as int] == 0u8);
    assert(behind.contains(0u8));
    if m < mode.len() {
        assert(behind[m] == mode[m]);
    }
    assert(m == mode.len());
    assert(rest.take(n) =~= name);
    assert(behind.take(m) =~= mode);
    assert(data[2 + n] == rest[n]);
    assert(data[2 + n + 1 + m] == behind[m]);
}

/// A request is refused exactly if fewer than two zero bytes follow its code; otherwise it holds the
/// name and the mode that are read.
pub proof fn law_request_needs_two_zeros(data: Seq<u8>)
    requires
        data.len() >= 2,
    ensures
        request_fields(data) is Some <==> two_zeros(data),
        request_fields(data) matches Some((name, mode)) ==> exists|tail: Seq<u8>|
            #[trigger] holds_fields(data, name, mode, tail),
{
    let rest = data.skip(2);
    let n = text::first_at(rest, 0u8);
    text::lemma_first_at(rest, 0u8);
    let behind = rest.skip(n + 1);
    let m = text::first_at(behind, 0u8);
    if two_zeros(data) {
        let (i, j) = choose|i: int, j: int|
            2 <= i < j < data.len() && #[trigger] data[i] == 0u8 && #[trigger] data[j] == 0u8;
        assert(rest[i - 2] == 0u8 && rest[j - 2] == 0u8);
        assert(rest.contains(0u8));
        assert(n <= i - 2);
        assert(behind[j - 2 - n - 1] == 0u8);
        assert(behind.contains(0u8));
        text::lemma_first_at(behind, 0u8);
        assert(request_fields(data) is Some);
    }
    if request_fields(data) is Some {
        text::lemma_first_at(behind, 0u8);
        let name = rest.take(n);
        let mode = behind.take(m);
        let tail = behind.skip(m + 1);
        assert(rest =~= request_body(name, mode, tail));
        assert(!name.contains(0u8)) by {
            if name.contains(0u8) {
                let k = name.index_of(0u8);
                assert(rest[k] == name[k]);
            }
        }
        assert(!mode.contains(0u8)) by {
            if mode.contains(0u8) {
                let k = mode.index_of(0u8);
                assert(behind[k] == mode[k]);
            }
        }
        assert(request_fields(data) == Some((name, mode)));
        assert(holds_fields(data, (request_fields(data)->0).0, (request_fields(data)->0).1, tail));
        assert(data[2 + n] == rest[n]);
        assert(data[2 + n + 1 + m] == behind[m]);
    }
}

/// The file name and the mode in a request.
pub fn parse_request(data: &[u8]) -> (r: Option<(String, String)>)
    requires
        data.len() >= 2,
    ensures
        r is Some <==> request_fields(data@) is Some,
        r matches Some((name, mode)) ==> {
            let fields = request_fields(data@)->0;
            &&& name@ == unicode::utf8_lossy(fields.0)
            &&& mode@ == unicode::utf8_lossy(fields.1)
            &&& valid_utf8(fields.0) ==> name@ == decode_utf8(fields.0)
            &&& valid_utf8(fields.1) ==> mode@ == decode_utf8(fields.1)
        },
        r is Some <==> two_zeros(data@),
        forall|name: Seq<u8>, mode: Seq<u8>, tail: Seq<u8>| #[trigger]
            holds_fields(data@, name, mode, tail) ==> r is Some && is_name_of((r->0).0@, name)
                && is_name_of((r->0).1@, mode),
{
    proof {
        law_request_needs_two_zeros(data@);
        assert forall|name: Seq<u8>, mode: Seq<u8>, tail: Seq<u8>| #[trigger]
            holds_fields(data@, name, mode, tail) implies request_fields(data@) == Some(
            (name, mode),
        ) by {
            law_request_is_read(data@, name, mode, tail);
        }
    }
    let rest: &[u8] = &data[2..data.len()];
    assert(rest@ =~= data@.skip(2));
    let n: usize = find_byte(rest, 0);
    if n == rest.len() || n + 1 == rest.len() {
        return None;
    }
    let tail: &[u8] = &rest[n + 1..rest.len()];
    assert(tail@ =~= data@.skip(2).skip(n + 1));
    let m: usize = find_byte(tail, 0);
    if m == tail.len() {
        return None;
    }
    let name: &[u8] = &rest[0..n];
    let mode: &[u8] = &tail[0..m];
    assert(name@ =~= rest@.take(n as int));
    assert(mode@ =~= tail@.take(m as int));
    Some((text_lossy(name), text_lossy(mode)))
}

/// What a datagram to the server asks for.
pub enum Request {
    /// Nothing that gets an answer or a log entry.
    Nothing,
    /// To download the file of this name.
    Read(String),
    /// To upload the file of this name.
    Write(String),
    /// Something unknown; the text is for the log.
    Unknown(String),
}

/// What a datagram to the server asks for.
pub fn handle_request(data: &[u8]) -> (r: Request)
    ensures
        data@.len() < 4 ==> r is Nothing,
        data@.len() >= 4 ==> ({
            let opcode = from_big_endian(data@[0], data@[1]);
            let fields = request_fields(data@);
            match r {
                Request::Nothing => (opcode == OPCODE_RRQ || opcode == OPCODE_WRQ) && fields is None,
                Request::Read(name) => opcode == OPCODE_RRQ && fields is Some && is_name_of(
                    name@,
                    (fields->0).0,
                ),
                Request::Write(name) => opcode == OPCODE_WRQ && fields is Some && is_name_of(
                    name@,
                    (fields->0).0,
                ),
                Request::Unknown(log) => opcode != OPCODE_RRQ && opcode != OPCODE_WRQ && log@
                    == "Unknown opcode: "@ + digits::decimal(opcode as nat),
            }
        }),
        forall|name: Seq<u8>, mode: Seq<u8>, tail: Seq<u8>| #[trigger]
            holds_fields(data@, name, mode, tail) && data@[0] == 0 ==> {
                &&& data@[1] == 1 ==> r is Read && is_name_of(r->Read_0@, name)
                &&& data@[1] == 2 ==> r is Write && is_name_of(r->Write_0@, name)
            },
        data@.len() >= 4 && !(data@[0] == 0 && (data@[1] == 1 || data@[1] == 2)) ==> r is Unknown
            && digits::framed(
            r->Unknown_0@,
            "Unknown opcode: "@,
            (data@[0] * 256 + data@[1]) as nat,
            ""@,
        ),
{
    proof {
        reveal_strlit("");
        assert forall|name: Seq<u8>, mode: Seq<u8>, tail: Seq<u8>| #[trigger]
            holds_fields(data@, name, mode, tail) implies request_fields(data@) == Some(
            (name, mode),
        ) && data@.len() >= 4 by {
            law_request_is_read(data@, name, mode, tail);
        }
        if data@.len() >= 4 {
            let opcode = from_big_endian(data@[0], data@[1]) as nat;
            digits::lemma_framed("Unknown opcode: "@, opcode, ""@);
            assert("Unknown opcode: "@ + digits::decimal(opcode) + ""@ =~= "Unknown opcode: "@
                + digits::decimal(opcode));
        }
    }
    if data.len() < 4 {
        return Request::Nothing;
    }
    let opcode: u16 = read_u16(data[0], data[1]);
    if opcode != OPCODE_RRQ && opcode != OPCODE_WRQ {
        let mut log: String = "Unknown opcode: ".to_owned();
        let number: String = decimal_string(opcode as u64);
        log.append(number.as_str());
        return Request::Unknown(log);
    }
    match parse_request(data) {
        Some((name, _mode)) => if opcode == OPCODE_RRQ {
            Request::Read(name)
        } else {
            Request::Write(name)
        },
        None => Request::Nothing,
    }
}

/// Whether `name` is the text of the bytes `field`.
pub open spec fn is_name_of(name: Seq<char>, field: Seq<u8>) -> bool {
    &&& name == unicode::utf8_lossy(field)
    &&& valid_utf8(field) ==> name == decode_utf8(field)
}

/// The path below the root folder that a file name stands for; nothing, if it leads out of the
/// root folder.
pub fn resolve_path(filename: &str, platform: Platform) -> (r: Option<String>)
    ensures
        r is Some <==> paths::confined(filename@, platform) is Some,
        r matches Some(rel) ==> Some(rel@) == paths::confined(filename@, platform),
{
    confine(filename, platform)
}

// ---------------------------------------------------------------------------
// Downloads
// ---------------------------------------------------------------------------

/// What a read or write request leads to before the disk is looked at.
pub enum Opening {
    /// Look at this path below the root folder.
    LookAt(String),
    /// Send this packet and stop.
    Refuse(Vec<u8>),
}

/// Whether a request for a file leads where it should: the path of some names, with or without a slash
/// in front, is looked at under these names, but on Windows not if they name a drive.
pub open spec fn opens(
    r: Opening,
    filename: Seq<char>,
    names: Seq<Seq<char>>,
    platform: Platform,
) -> bool {
    let path = text::join(names, '/');
    filename == path || filename == seq!['/'] + path ==> match r {
        Opening::LookAt(rel) => rel@ == path,
        Opening::Refuse(_) => platform is Windows && paths::names_drive(path),
    }
}

/// What comes first for a read request: a log entry, then a look at the path or a refusal.
pub fn handle_rrq(filename: &str, platform: Platform) -> (r: (String, Opening))
    ensures
        r.0@ == "RRQ "@ + filename@,
        match r.1 {
            Opening::LookAt(rel) => paths::confined(filename@, platform) == Some(rel@),
            Opening::Refuse(pkt) => paths::confined(filename@, platform) is None && pkt@ == error_packet(
                1,
                "File not found"@,
            ),
        },
        r.1 matches Opening::Refuse(pkt) ==> reports(pkt@, 1, "File not found"@),
        forall|names: Seq<Seq<char>>| #[trigger]
            paths::all_names(names) ==> opens(r.1, filename@, names, platform),
{
    proof {
        law_error_reports(1, "File not found"@);
        assert forall|names: Seq<Seq<char>>| #[trigger] paths::all_names(names) implies {
            let path = text::join(names, '/');
            filename@ == path || filename@ == seq!['/'] + path ==> paths::confined(filename@, platform)
                == paths::allowed(path, platform)
        } by {
            paths::law_names_are_confined(names, platform);
        }
    }
    let mut log: String = "RRQ ".to_owned();
    log.append(filename);
    match resolve_path(filename, platform) {
        Some(rel) => (log, Opening::LookAt(rel)),
        None => (log, Opening::Refuse(build_error(1, "File not found"))),
    }
}

/// Whether a download may start, given what the disk says: the path must be a file within the root
/// folder. Otherwise the packet that refuses it.
pub fn open_download(root: &Option<CanonicalPath>, facts: &PathFacts) -> (r: Option<Vec<u8>>)
    ensures
        r is None <==> common::within_root(*root, *facts) && facts.is_file(),
        r matches Some(pkt) ==> pkt@ == error_packet(1, "File not found"@),
        r matches Some(pkt) ==> reports(pkt@, 1, "File not found"@),
        facts.meta is None || !facts.meta->0.is_file || *root is None ==> r is Some,
{
    proof {
        law_error_reports(1, "File not found"@);
    }
    if is_within_root(root, facts) && facts.file() {
        None
    } else {
        Some(build_error(1, "File not found"))
    }
}

/// Where the block `k` of a file ends, counting blocks from 0.
pub open spec fn block_end(len: int, k: int) -> int {
    if (k + 1) * BLOCK_SIZE < len {
        (k + 1) * BLOCK_SIZE
    } else {
        len
    }
}

/// The number of blocks of a file: the last one is shorter than a full block, and may be empty.
pub open spec fn block_count(len: int) -> int {
    len / BLOCK_SIZE as int + 1
}

/// The data of the block `k` of a file, counting blocks from 0.
pub open spec fn block_data(file: Seq<u8>, k: int) -> Seq<u8> {
    file.subrange(k * BLOCK_SIZE, block_end(file.len() as int, k))
}

/// The number that the block `k` carries; it starts at 1 and wraps around.
pub open spec fn block_number(k: int) -> u16 {
    ((k + 1) % 65536) as u16
}

/// The packets of a whole download, in order.
pub open spec fn file_packets(file: Seq<u8>) -> Seq<Seq<u8>> {
    Seq::new(
        block_count(file.len() as int) as nat,
        |k: int| data_packet(block_number(k), block_data(file, k)),
    )
}

/// Whether a packet carries the part `k` of a file, counting from 0: 512 bytes, or what is left.
pub open spec fn carries_part(packet: Seq<u8>, file: Seq<u8>, k: int) -> bool {
    &&& packet.len() >= 4
    &&& packet[0] == 0 && packet[1] == 3
    &&& packet[2] * 256 + packet[3] == (k + 1) % 65536
    &&& packet.len() - 4 == if 512 * k + 512 <= file.len() {
        512
    } else {
        file.len() - 512 * k
    }
    &&& forall|j: int| 0 <= j < packet.len() - 4 ==> #[trigger] packet[j + 4] == file[512 * k + j]
}

/// A download has as many packets as there are parts of 512 bytes, the last one of which is not full,
/// and they carry the parts in order.
pub proof fn law_download_packets(file: Seq<u8>, k: int)
    requires
        0 <= k < file_packets(file).len(),
    ensures
        512 * (file_packets(file).len() - 1) <= file.len() < 512 * file_packets(file).len(),
        carries_part(file_packets(file)[k], file, k),
{
    let packet = file_packets(file)[k];
    let data = block_data(file, k);
    assert(k * BLOCK_SIZE <= file.len()) by (nonlinear_arith)
        requires
            0 <= k <= file.len() as int / 512,
            BLOCK_SIZE == 512,
    ;
    assert forall|j: int| 0 <= j < packet.len() - 4 implies #[trigger] packet[j + 4] == file[512 * k
        + j] by {
        assert(packet[j + 4] == data[j]);
    }
}

/// The packets are, byte for byte: a code, a number and what they carry.
pub proof fn law_packets(n: u16, data: Seq<u8>, msg: Seq<char>)
    ensures
        ack_packet(n).len() == 4,
        ack_packet(n)[0] == 0 && ack_packet(n)[1] == 4,
        ack_packet(n)[2] * 256 + ack_packet(n)[3] == n,
        data_packet(n, data)[0] == 0 && data_packet(n, data)[1] == 3,
        data_packet(n, data)[2] * 256 + data_packet(n, data)[3] == n,
        data_packet(n, data).skip(4) == data,
        error_packet(n, msg)[0] == 0 && error_packet(n, msg)[1] == 5,
        error_packet(n, msg)[2] * 256 + error_packet(n, msg)[3] == n,
        error_packet(n, msg).skip(4) == encode_utf8(msg) + seq![0u8],
{
    assert(data_packet(n, data).skip(4) =~= data);
    assert(error_packet(n, msg).skip(4) =~= encode_utf8(msg) + seq![0u8]);
}

/// A download under way: the block that was sent last and is not acknowledged yet.
pub struct Download {
    pub name: String,
    pub data: Vec<u8>,
    pub block: u16,
    pub offset: usize,
    pub retries: u32,
}

/// What a download does next.
pub enum DownloadStep {
    /// Send the packet of the current block, then wait for a reply.
    Send,
    /// Stop; the file is delivered. The text is for the log.
    Done(String),
    /// Stop; nothing came back. The text is for the log.
    GiveUp(String),
}

impl Download {
    /// The block under way, counting from 0.
    pub open spec fn index(self) -> int {
        self.offset as int / BLOCK_SIZE as int
    }

    /// Whether the fields fit together: the offset is the start of a block of the file, the number
    /// is that of the block, and fewer than three waits were in vain.
    pub open spec fn wf(self) -> bool {
        &&& self.offset <= self.data@.len()
        &&& self.offset as int % BLOCK_SIZE as int == 0
        &&& self.block == block_number(self.index())
        &&& self.retries < 3
    }

    /// The packet of the block under way.
    pub open spec fn current(self) -> Seq<u8> {
        file_packets(self.data@)[self.index()]
    }

    /// Whether the block under way is the last one.
    pub open spec fn at_last(self) -> bool {
        self.index() == block_count(self.data@.len() as int) - 1
    }

    /// Whether a reply of four bytes acknowledges the block under way.
    pub open spec fn acknowledged_by(self, reply: Seq<u8>) -> bool {
        reply == ack_packet(self.block)
    }

    /// Starts the download of a file with its first block.
    pub fn new(name: String, data: Vec<u8>) -> (d: Download)
        ensures
            d.wf(),
            d.name == name,
            d.data == data,
            d.index() == 0,
            d.retries == 0,
    {
        Download { name, data, block: 1, offset: 0, retries: 0 }
    }

    /// Starts the download of a file that was read; otherwise the packet that refuses it.
    pub fn open(name: String, read: Option<Vec<u8>>) -> (r: Result<Download, Vec<u8>>)
        ensures
            match read {
                Some(data) => {
                    &&& r matches Ok(d)
                    &&& d.wf()
                    &&& d.name == name
                    &&& d.data == data
                    &&& d.index() == 0
                    &&& d.retries == 0
                },
                None => r matches Err(pkt) && pkt@ == error_packet(1, "File not found"@),
            },
            r matches Err(pkt) ==> reports(pkt@, 1, "File not found"@),
    {
        proof {
            law_error_reports(1, "File not found"@);
        }
        match read {
            Some(data) => Ok(Download::new(name, data)),
            None => Err(build_error(1, "File not found")),
        }
    }

    /// The packet of the block under way.
    pub fn packet(&self) -> (pkt: Vec<u8>)
        requires
            self.wf(),
        ensures
            pkt@ == self.current(),
            carries_part(pkt@, self.data@, self.index()),
    {
        proof {
            lemma_blocks(self.data@.len() as int, self.offset as int);
            law_download_packets(self.data@, self.index());
        }
        let rest: usize = self.data.len() - self.offset;
        let end: usize = if rest < BLOCK_SIZE {
            self.data.len()
        } else {
            self.offset + BLOCK_SIZE
        };
        build_data(self.block, &self.data.as_slice()[self.offset..end])
    }

    /// Takes in a reply of four bytes, or that none came in time.
    pub fn on_reply(&mut self, reply: Option<[u8; 4]>) -> (step: DownloadStep)
        requires
            old(self).wf(),
        ensures
            final(self).wf(),
            final(self).data == old(self).data,
            final(self).name == old(self).name,
            match reply {
                Some(bytes) => if old(self).acknowledged_by(bytes@) {
                    if old(self).at_last() {
                        &&& *final(self) == *old(self)
                        &&& step matches DownloadStep::Done(log)
                        &&& log@ == "Sent "@ + old(self).name@ + " ("@ + digits::decimal(
                            old(self).data@.len(),
                        ) + " bytes)"@
                    } else {
                        &&& final(self).index() == old(self).index() + 1
                        &&& final(self).retries == 0
                        &&& step is Send
                    }
                } else {
                    *final(self) == *old(self) && step is Send
                },
                None => {
                    if old(self).retries == 2 {
                        &&& *final(self) == *old(self)
                        &&& step matches DownloadStep::GiveUp(log)
                        &&& log@ == "Transfer timeout"@
                    } else {
                        &&& *final(self) == (Download {
                            retries: (old(self).retries + 1) as u32,
                            ..*old(self)
                        })
                        &&& step is Send
                    }
                },
            },
            replied(*old(self), reply_bytes(reply), *final(self), step),
    {
        proof {
            lemma_blocks(self.data@.len() as int, self.offset as int);
            if reply is Some {
                law_acknowledged(*self, reply->0@);
            }
        }
        match reply {
            Some(bytes) => {
                let op: u16 = read_u16(bytes[0], bytes[1]);
                let block: u16 = read_u16(bytes[2], bytes[3]);
                proof {
                    lemma_is_ack(bytes@, self.block);
                }
                if op != OPCODE_ACK || block != self.block {
                    return DownloadStep::Send;
                }
                if self.data.len() - self.offset < BLOCK_SIZE {
                    let mut log: String = "Sent ".to_owned();
                    log.append(self.name.as_str());
                    log.append(" (");
                    let size: String = decimal_string(self.data.len() as u64);
                    log.append(size.as_str());
                    log.append(" bytes)");
                    proof {
                        digits::lemma_framed(
                            "Sent "@ + self.name@ + " ("@,
                            self.data@.len(),
                            " bytes)"@,
                        );
                    }
                    DownloadStep::Done(log)
                } else {
                    self.block = if self.block == 65535 {
                        0
                    } else {
                        self.block + 1
                    };
                    self.offset = self.offset + BLOCK_SIZE;
                    self.retries = 0;
                    DownloadStep::Send
                }
            },
            None => {
                if self.retries == 2 {
                    DownloadStep::GiveUp("Transfer timeout".to_owned())
                } else {
                    self.retries = self.retries + 1;
                    DownloadStep::Send
                }
            },
        }
    }
}

/// A reply as a sequence of bytes.
pub open spec fn reply_bytes(reply: Option<[u8; 4]>) -> Option<Seq<u8>> {
    match reply {
        Some(bytes) => Some(bytes@),
        None => None,
    }
}

/// Whether a download goes on as it should after a reply, or after a wait in vain. The
/// acknowledgement of its block brings the next 512 bytes, or the end where there were fewer; the third
/// wait in vain in a row ends it; and anything else makes it send the same again.
pub open spec fn replied(
    pre: Download,
    reply: Option<Seq<u8>>,
    post: Download,
    step: DownloadStep,
) -> bool {
    let acked = reply is Some && reply->0[0] == 0 && reply->0[1] == 4 && reply->0[2] * 256
        + reply->0[3] == pre.block;
    let left = pre.data@.len() - pre.offset;
    &&& post.data == pre.data && post.name == pre.name
    &&& acked && left < 512 ==> step is Done && digits::framed(
        step->Done_0@,
        "Sent "@ + pre.name@ + " ("@,
        pre.data@.len(),
        " bytes)"@,
    )
    &&& acked && left >= 512 ==> step is Send && post.offset == pre.offset + 512 && post.block == (
    pre.block + 1) % 65536 && post.retries == 0
    &&& reply is Some && !acked ==> step is Send && post == pre
    &&& reply is None ==> (step is GiveUp <==> pre.retries + 1 == 3)
    &&& reply is None && pre.retries + 1 < 3 ==> step is Send && post.offset == pre.offset && post.block
        == pre.block && post.retries == pre.retries + 1
}

/// The acknowledgement of a block is its code and the number of the block, in four bytes.
pub proof fn law_acknowledged(d: Download, reply: Seq<u8>)
    requires
        reply.len() == 4,
    ensures
        d.acknowledged_by(reply) <==> reply[0] == 0 && reply[1] == 4 && reply[2] * 256 + reply[3]
            == d.block,
{
    lemma_is_ack(reply, d.block);
}

/// The block under way is the last one exactly if fewer than 512 bytes are left.
pub proof fn law_last_block(d: Download)
    requires
        d.wf(),
    ensures
        d.at_last() <==> d.data@.len() - d.offset < 512,
        carries_part(d.current(), d.data@, d.offset as int / 512),
        d.offset == 512 * (d.offset as int / 512),
{
    lemma_blocks(d.data@.len() as int, d.offset as int);
    law_download_packets(d.data@, d.index());
}

/// A download that hears nothing sends its block three times in all and then gives up.
pub proof fn law_three_waits(
    a: Download,
    b: Download,
    c: Download,
    d: Download,
    first: DownloadStep,
    second: DownloadStep,
    third: DownloadStep,
)
    requires
        replied(a, None, b, first),
        replied(b, None, c, second),
        replied(c, None, d, third),
        a.retries == 0,
    ensures
        first is Send && second is Send && third is GiveUp,
        b.offset == a.offset && c.offset == a.offset,
        b.block == a.block && c.block == a.block,
{
}

/// Four bytes are the acknowledgement of a block exactly when they hold its code and number.
proof fn lemma_is_ack(bytes: Seq<u8>, block: u16)
    requires
        bytes.len() == 4,
    ensures
        bytes == ack_packet(block) <==> from_big_endian(bytes[0], bytes[1]) == OPCODE_ACK
            && from_big_endian(bytes[2], bytes[3]) == block,
{
    let ack = ack_packet(block);
    if from_big_endian(bytes[0], bytes[1]) == OPCODE_ACK && from_big_endian(bytes[2], bytes[3])
        == block {
        assert(bytes =~= ack);
    }
    assert(ack[0] == 0 && ack[1] == 4 && ack[2] == block / 256 && ack[3] == block % 256);
}

/// Where a block that starts at `offset` ends, and whether it is the last one.
proof fn lemma_blocks(len: int, offset: int)
    requires
        0 <= offset <= len,
        offset % BLOCK_SIZE as int == 0,
    ensures
        ({
            let k = offset / BLOCK_SIZE as int;
            &&& offset == k * BLOCK_SIZE
            &&& 0 <= k < block_count(len)
            &&& block_end(len, k) == (if len - offset < BLOCK_SIZE {
                len
            } else {
                offset + BLOCK_SIZE
            })
            &&& k == block_count(len) - 1 <==> len - offset < BLOCK_SIZE
            &&& len - offset >= BLOCK_SIZE ==> (offset + BLOCK_SIZE) / BLOCK_SIZE as int == k + 1
        }),
{
}

/// The blocks of a file put together are the file.
pub proof fn law_blocks_make_the_file(file: Seq<u8>, k: int)
    requires
        0 <= k <= block_count(file.len() as int),
    ensures
        Seq::new(k as nat, |i: int| block_data(file, i)).flatten() == file.take(
            block_end(file.len() as int, k - 1),
        ),
        k == block_count(file.len() as int) ==> Seq::new(
            k as nat,
            |i: int| block_data(file, i),
        ).flatten() == file,
    decreases k,
{
    let len = file.len() as int;
    let all = Seq::new(k as nat, |i: int| block_data(file, i));
    if k == 0 {
        assert(all =~= Seq::<Seq<u8>>::empty());
        assert(file.take(block_end(len, -1)) =~= Seq::<u8>::empty());
    } else {
        let front = Seq::new((k - 1) as nat, |i: int| block_data(file, i));
        law_blocks_make_the_file(file, k - 1);
        assert(all =~= front.push(block_data(file, k - 1)));
        front.lemma_flatten_push(block_data(file, k - 1));
        assert(block_end(len, k - 2) == (k - 1) * BLOCK_SIZE);
        assert(file.take(block_end(len, k - 2)) + block_data(file, k - 1) =~= file.take(
            block_end(len, k - 1),
        ));
        if k == block_count(len) {
            assert(block_end(len, k - 1) == len);
            assert(file.take(len) =~= file);
        }
    }
}

// ---------------------------------------------------------------------------
// Uploads
// ---------------------------------------------------------------------------

/// What comes first for a write request: a log entry, then a look at the path or a refusal.
pub fn handle_wrq(filename: &str, platform: Platform) -> (r: (String, Opening))
    ensures
        r.0@ == "WRQ "@ + filename@,
        match r.1 {
            Opening::LookAt(rel) => paths::confined(filename@, platform) == Some(rel@),
            Opening::Refuse(pkt) => paths::confined(filename@, platform) is None && pkt@ == error_packet(
                2,
                "Access violation"@,
            ),
        },
        r.1 matches Opening::Refuse(pkt) ==> reports(pkt@, 2, "Access violation"@),
        forall|names: Seq<Seq<char>>| #[trigger]
            paths::all_names(names) ==> opens(r.1, filename@, names, platform),
{
    proof {
        law_error_reports(2, "Access violation"@);
        assert forall|names: Seq<Seq<char>>| #[trigger] paths::all_names(names) implies {
            let path = text::join(names, '/');
            filename@ == path || filename@ == seq!['/'] + path ==> paths::confined(filename@, platform)
                == paths::allowed(path, platform)
        } by {
            paths::law_names_are_confined(names, platform);
        }
    }
    let mut log: String = "WRQ ".to_owned();
    log.append(filename);
    match resolve_path(filename, platform) {
        Some(rel) => (log, Opening::LookAt(rel)),
        None => (log, Opening::Refuse(build_error(2, "Access violation"))),
    }
}

/// Whether an upload may start, given what the disk says: the path must be within the root folder.
/// Otherwise the packet that refuses it.
pub fn open_upload(root: &Option<CanonicalPath>, facts: &PathFacts) -> (r: Option<Vec<u8>>)
    ensures
        r is None <==> common::within_root(*root, *facts),
        r matches Some(pkt) ==> pkt@ == error_packet(2, "Access violation"@),
        r matches Some(pkt) ==> reports(pkt@, 2, "Access violation"@),
{
    proof {
        law_error_reports(2, "Access violation"@);
    }
    if is_within_root(root, facts) {
        None
    } else {
        Some(build_error(2, "Access violation"))
    }
}

/// Whether a datagram carries the block with the number `expected`.
pub open spec fn carries_block(datagram: Seq<u8>, expected: u16) -> bool {
    &&& datagram.len() >= 4
    &&& from_big_endian(datagram[0], datagram[1]) == OPCODE_DATA
    &&& from_big_endian(datagram[2], datagram[3]) == expected
}

/// How far an upload has come.
pub enum UploadState {
    /// More blocks are to come; these bytes have arrived.
    Open(Seq<u8>),
    /// The last block has arrived; these bytes are to be stored.
    Complete(Seq<u8>),
    /// Nothing is stored.
    Dropped,
}

/// The number of the block that comes after `data`.
pub open spec fn next_number(data: Seq<u8>) -> u16 {
    block_number(data.len() as int / BLOCK_SIZE as int)
}

/// How far an upload has come with one more datagram, when `data` has arrived in full blocks. A
/// datagram without a header ends it; one that does not carry the next block changes nothing; a
/// block that is not full is the last one.
pub open spec fn take_in(data: Seq<u8>, datagram: Seq<u8>) -> UploadState {
    let more = data + datagram.skip(4);
    if datagram.len() < 4 {
        UploadState::Dropped
    } else if !carries_block(datagram, next_number(data)) {
        UploadState::Open(data)
    } else if more.len() > MAX_FILE_SIZE {
        UploadState::Dropped
    } else if datagram.len() - 4 < BLOCK_SIZE {
        UploadState::Complete(more)
    } else {
        UploadState::Open(more)
    }
}

/// How far an upload has come with a series of datagrams.
pub open spec fn take_in_all(datagrams: Seq<Seq<u8>>) -> UploadState
    decreases datagrams.len(),
{
    if datagrams.len() == 0 {
        UploadState::Open(Seq::empty())
    } else {
        match take_in_all(datagrams.drop_last()) {
            UploadState::Open(data) => take_in(data, datagrams.last()),
            end => end,
        }
    }
}

/// What the client is told when a file is too large.
pub open spec fn too_large() -> Seq<char> {
    "File too large (max "@ + digits::decimal((MAX_FILE_SIZE / 1024 / 1024) as nat) + " MB)"@
}

/// An upload under way: the blocks that have arrived, and the number of the next one.
pub struct Upload {
    pub name: String,
    pub data: Vec<u8>,
    pub expected: u16,
}

/// What an upload does next.
pub enum UploadStep {
    /// Wait for the next datagram.
    Wait,
    /// Send this acknowledgement, then wait.
    Ack([u8; 4]),
    /// Send this acknowledgement, then store the data.
    Finish([u8; 4]),
    /// Send this packet and stop; the text is for the log.
    Reject(Vec<u8>, String),
    /// Stop; the text is for the log.
    Expire(String),
}

impl Upload {
    /// Whether the fields fit together: full blocks have arrived, not more than a file may have,
    /// and the number is that of the next block.
    pub open spec fn wf(self) -> bool {
        &&& self.data@.len() <= MAX_FILE_SIZE
        &&& self.data@.len() as int % BLOCK_SIZE as int == 0
        &&& self.expected == next_number(self.data@)
    }

    /// Starts an upload, and the acknowledgement that tells the client to begin.
    pub fn new(name: String) -> (r: (Upload, [u8; 4]))
        ensures
            r.0.wf(),
            r.0.name == name,
            r.0.data@ == Seq::<u8>::empty(),
            r.1@ == ack_packet(0),
            r.1@ == seq![0u8, 4, 0, 0],
    {
        assert(ack_packet(0) =~= seq![0u8, 4, 0, 0]);
        (Upload { name, data: Vec::new(), expected: 1 }, build_ack(0))
    }

    /// Takes in a datagram, or that none came in time.
    pub fn on_datagram(&mut self, received: Option<&[u8]>) -> (step: UploadStep)
        requires
            old(self).wf(),
            received matches Some(d) ==> d@.len() <= MAX_DATAGRAM,
        ensures
            final(self).name == old(self).name,
            step is Wait || step is Ack ==> final(self).wf(),
            match received {
                None => step matches UploadStep::Expire(log) && log@ == "Write timeout"@,
                Some(d) => match step {
                    UploadStep::Wait => {
                        &&& d@.len() >= 4 && !carries_block(d@, old(self).expected)
                        &&& *final(self) == *old(self)
                        &&& take_in(old(self).data@, d@) == UploadState::Open(old(self).data@)
                    },
                    UploadStep::Ack(ack) => {
                        &&& carries_block(d@, old(self).expected)
                        &&& ack@ == ack_packet(old(self).expected)
                        &&& ack[0] == 0 && ack[1] == 4 && ack[2] == d@[2] && ack[3] == d@[3]
                        &&& final(self).data@ == old(self).data@ + d@.skip(4)
                        &&& take_in(old(self).data@, d@) == UploadState::Open(final(self).data@)
                    },
                    UploadStep::Finish(ack) => {
                        &&& carries_block(d@, old(self).expected)
                        &&& ack@ == ack_packet(old(self).expected)
                        &&& ack[0] == 0 && ack[1] == 4 && ack[2] == d@[2] && ack[3] == d@[3]
                        &&& take_in(old(self).data@, d@) == UploadState::Complete(
                            final(self).data@,
                        )
                    },
                    UploadStep::Reject(pkt, log) => {
                        &&& carries_block(d@, old(self).expected)
                        &&& take_in(old(self).data@, d@) is Dropped
                        &&& pkt@ == error_packet(3, too_large())
                        &&& reports(pkt@, 3, too_large())
                        &&& old(self).data@.len() + d@.len() - 4 > 64 * 1024 * 1024
                        &&& log@ == "WRQ "@ + old(self).name@ + " rejected: exceeds size limit"@
                    },
                    UploadStep::Expire(log) => {
                        &&& d@.len() < 4
                        &&& take_in(old(self).data@, d@) is Dropped
                        &&& log@ == "Write timeout"@
                    },
                },
            },
    {
        let datagram: &[u8] = match received {
            Some(d) => d,
            None => {
                return UploadStep::Expire("Write timeout".to_owned());
            },
        };
        if datagram.len() < 4 {
            return UploadStep::Expire("Write timeout".to_owned());
        }
        let opcode: u16 = read_u16(datagram[0], datagram[1]);
        let block: u16 = read_u16(datagram[2], datagram[3]);
        if opcode != OPCODE_DATA || block != self.expected {
            return UploadStep::Wait;
        }
        let payload: &[u8] = &datagram[4..datagram.len()];
        assert(payload@ =~= datagram@.skip(4));
        append_bytes(&mut self.data, payload);
        if self.data.len() > MAX_FILE_SIZE {
            let mut msg: String = "File too large (max ".to_owned();
            let limit: String = decimal_string((MAX_FILE_SIZE / 1024 / 1024) as u64);
            msg.append(limit.as_str());
            msg.append(" MB)");
            let mut log: String = "WRQ ".to_owned();
            log.append(self.name.as_str());
            log.append(" rejected: exceeds size limit");
            proof {
                law_error_reports(3, too_large());
            }
            return UploadStep::Reject(build_error(3, msg.as_str()), log);
        }
        let ack: [u8; 4] = build_ack(block);
        if datagram.len() - 4 < BLOCK_SIZE {
            return UploadStep::Finish(ack);
        }
        self.expected = if self.expected == 65535 {
            0
        } else {
            self.expected + 1
        };
        UploadStep::Ack(ack)
    }

    /// The log entry for a finished upload, by the outcome of storing the file.
    pub fn stored(&self, failure: Option<String>) -> (log: String)
        ensures
            log@ == match failure {
                None => "Received "@ + self.name@ + " ("@ + digits::decimal(self.data@.len())
                    + " bytes)"@,
                Some(why) => "Write error: "@ + why@,
            },
            failure is None ==> digits::framed(
                log@,
                "Received "@ + self.name@ + " ("@,
                self.data@.len(),
                " bytes)"@,
            ),
    {
        proof {
            digits::lemma_framed(
                "Received "@ + self.name@ + " ("@,
                self.data@.len(),
                " bytes)"@,
            );
        }
        match failure {
            None => {
                let mut log: String = "Received ".to_owned();
                log.append(self.name.as_str());
                log.append(" (");
                let size: String = decimal_string(self.data.len() as u64);
                log.append(size.as_str());
                log.append(" bytes)");
                log
            },
            Some(why) => {
                let mut log: String = "Write error: ".to_owned();
                log.append(why.as_str());
                log
            },
        }
    }
}

/// Uploading the packets of a download gives the file back, if it is not too large.
pub proof fn law_upload_of_download(file: Seq<u8>)
    requires
        file.len() <= MAX_FILE_SIZE,
    ensures
        take_in_all(file_packets(file)) == UploadState::Complete(file),
{
    let count = block_count(file.len() as int);
    lemma_upload_prefix(file, count);
    assert(file_packets(file).take(count) =~= file_packets(file));
}

/// The state of an upload after the first `k` packets of a download.
proof fn lemma_upload_prefix(file: Seq<u8>, k: int)
    requires
        file.len() <= MAX_FILE_SIZE,
        0 <= k <= block_count(file.len() as int),
    ensures
        take_in_all(file_packets(file).take(k)) == if k < block_count(file.len() as int) {
            UploadState::Open(file.take(k * BLOCK_SIZE))
        } else {
            UploadState::Complete(file)
        },
    decreases k,
{
    let len = file.len() as int;
    let packets = file_packets(file);
    if k == 0 {
        assert(file.take(0) =~= Seq::<u8>::empty());
    } else {
        lemma_upload_prefix(file, k - 1);
        assert(packets.take(k).drop_last() =~= packets.take(k - 1));
        let data = file.take((k - 1) * BLOCK_SIZE);
        let payload = block_data(file, k - 1);
        let packet = data_packet(block_number(k - 1), payload);
        assert(packets.take(k).last() == packet);
        assert(packet.skip(4) =~= payload);
        lemma_blocks(len, (k - 1) * BLOCK_SIZE);
        law_big_endian_round_trip(block_number(k - 1));
        law_big_endian_round_trip(OPCODE_DATA);
        assert(packet[0] == big_endian(OPCODE_DATA)[0]);
        assert(packet[1] == big_endian(OPCODE_DATA)[1]);
        assert(packet[2] == big_endian(block_number(k - 1))[0]);
        assert(packet[3] == big_endian(block_number(k - 1))[1]);
        assert(data.len() as int / BLOCK_SIZE as int == k - 1);
        assert(carries_block(packet, next_number(data)));
        assert(data + payload =~= file.take(block_end(len, k - 1)));
        if k == block_count(len) {
            assert(file.take(len) =~= file);
        }
    }
}

/// A datagram with another number than the next one, such as a block that arrives twice, changes
/// nothing.
pub proof fn law_stray_block_ignored(data: Seq<u8>, datagram: Seq<u8>)
    requires
        datagram.len() >= 4,
        from_big_endian(datagram[2], datagram[3]) != next_number(data),
    ensures
        take_in(data, datagram) == UploadState::Open(data),
{
}

/// Nothing longer than the limit is ever stored.
pub proof fn law_upload_is_bounded(datagrams: Seq<Seq<u8>>)
    ensures
        take_in_all(datagrams) matches UploadState::Complete(data) ==> data.len() <= MAX_FILE_SIZE,
        take_in_all(datagrams) matches UploadState::Open(data) ==> data.len() <= MAX_FILE_SIZE,
    decreases datagrams.len(),
{
    if datagrams.len() > 0 {
        law_upload_is_bounded(datagrams.drop_last());
    }
}

/// A packet of 512 bytes with the next number goes behind what has arrived, and the upload goes on; a
/// shorter one completes it; more than 64 MB are dropped.
pub proof fn law_next_block_is_taken(data: Seq<u8>, hi: u8, lo: u8, payload: Seq<u8>)
    requires
        hi * 256 + lo == (data.len() / 512 + 1) % 65536,
        payload.len() <= 512,
    ensures
        take_in(data, seq![0u8, 3u8, hi, lo] + payload) == if data.len() + payload.len() > 64 * 1024
            * 1024 {
            UploadState::Dropped
        } else if payload.len() == 512 {
            UploadState::Open(data + payload)
        } else {
            UploadState::Complete(data + payload)
        },
{
    let packet = seq![0u8, 3u8, hi, lo] + payload;
    assert(packet.skip(4) =~= payload);
    assert(packet[0] == 0 && packet[1] == 3 && packet[2] == hi && packet[3] == lo);
    assert(from_big_endian(hi, lo) == hi * 256 + lo);
    assert(from_big_endian(0, 3) == 3);
}

/// Four bytes or more that are no data packet change nothing, and fewer end the upload.
pub proof fn law_other_datagrams(data: Seq<u8>, datagram: Seq<u8>)
    ensures
        datagram.len() >= 4 && !(datagram[0] == 0 && datagram[1] == 3) ==> take_in(data, datagram)
            == UploadState::Open(data),
        datagram.len() < 4 ==> take_in(data, datagram) is Dropped,
{
}

/// An upload that has ended takes in nothing more.
pub proof fn law_upload_ends(datagrams: Seq<Seq<u8>>, more: Seq<u8>)
    ensures
        match take_in_all(datagrams) {
            UploadState::Open(data) => take_in_all(datagrams.push(more)) == take_in(data, more),
            end => take_in_all(datagrams.push(more)) == end,
        },
        take_in_all(Seq::empty()) == UploadState::Open(Seq::empty()),
{
    assert(datagrams.push(more).drop_last() =~= datagrams);
}

/// A client is told that a file may have 64 MB at most.
pub proof fn law_too_large()
    ensures
        digits::framed(too_large(), "File too large (max "@, 64, " MB)"@),
        MAX_FILE_SIZE == 64 * 1024 * 1024,
{
    digits::lemma_framed("File too large (max "@, 64, " MB)"@);
}

} // verus!
