use vstd::prelude::*;
use vstd::utf8::*;

use crate::commands::{bulk_text, command_spec, Command, CommandV, SetCmd};
use crate::frame::{decimal, lemma_array_view, signed_decimal, views, Frame, FrameV};

verus! {

/// The snapshot of an empty store, sent verbatim during a full resync.
pub const EMPTY_RDB_FILE_BYTES: [u8; 88] = [
    0x52, 0x45, 0x44, 0x49, 0x53, 0x30, 0x30, 0x31, 0x31, 0xfa, 0x09, 0x72, 0x65, 0x64, 0x69, 0x73,
    0x2d, 0x76, 0x65, 0x72, 0x05, 0x37, 0x2e, 0x32, 0x2e, 0x30, 0xfa, 0x0a, 0x72, 0x65, 0x64, 0x69,
    0x73, 0x2d, 0x62, 0x69, 0x74, 0x73, 0xc0, 0x40, 0xfa, 0x05, 0x63, 0x74, 0x69, 0x6d, 0x65, 0xc2,
    0x6d, 0x08, 0xbc, 0x65, 0xfa, 0x08, 0x75, 0x73, 0x65, 0x64, 0x2d, 0x6d, 0x65, 0x6d, 0xc2, 0xb0,
    0xc4, 0x10, 0x00, 0xfa, 0x08, 0x61, 0x6f, 0x66, 0x2d, 0x62, 0x61, 0x73, 0x65, 0xc0, 0x00, 0xff,
    0xf0, 0x6e, 0x3b, 0xfe, 0xc0, 0xff, 0x5a, 0xa2,
];

/// The replication identifier this server announces as a primary.
pub const REPLICATION_ID: &'static str = "8371b4fb1155b71f4a04d3e1bc3e18c4a990aeeb";

/// The replication state of this server.
pub struct ReplicationInfo {
    role: String,
    connected_slaves: u64,
    master_repl_offset: u64,
    master_replication_id: String,
    second_repl_offset: i64,
    repl_backlog_active: bool,
    repl_backlog_size: u64,
    repl_backlog_first_byte_offset: u64,
    repl_backlog_histlen: u64,
    reaplicaof_addr: Option<String>,
    listening_port: String,
    replicas: Vec<String>,
}

/// The value of a [`ReplicationInfo`].
pub struct ReplicationInfoV {
    pub role: Seq<char>,
    pub connected_slaves: u64,
    pub master_repl_offset: u64,
    pub master_replication_id: Seq<char>,
    pub second_repl_offset: i64,
    pub repl_backlog_active: bool,
    pub repl_backlog_size: u64,
    pub repl_backlog_first_byte_offset: u64,
    pub repl_backlog_histlen: u64,
    pub replicaof_addr: Option<Seq<char>>,
    pub listening_port: Seq<char>,
    pub replicas: Seq<Seq<char>>,
}

/// The texts of a sequence of strings.
pub open spec fn texts(v: Seq<String>) -> Seq<Seq<char>> {
    Seq::new(v.len(), |i: int| v[i]@)
}

impl View for ReplicationInfo {
    type V = ReplicationInfoV;

    closed spec fn view(&self) -> ReplicationInfoV {
        ReplicationInfoV {
            role: self.role@,
            connected_slaves: self.connected_slaves,
            master_repl_offset: self.master_repl_offset,
            master_replication_id: self.master_replication_id@,
            second_repl_offset: self.second_repl_offset,
            repl_backlog_active: self.repl_backlog_active,
            repl_backlog_size: self.repl_backlog_size,
            repl_backlog_first_byte_offset: self.repl_backlog_first_byte_offset,
            repl_backlog_histlen: self.repl_backlog_histlen,
            replicaof_addr: opt_text(self.reaplicaof_addr),
            listening_port: self.listening_port@,
            replicas: texts(self.replicas@),
        }
    }
}

/// The text of an optional string.
pub open spec fn opt_text(s: Option<String>) -> Option<Seq<char>> {
    match s {
        Some(a) => Some(a@),
        None => None,
    }
}

/// The state a server starts in: a primary when `replicaof` is `None`, else a
/// replica of that address; no replicas, offset 0, the fixed identifier.
pub open spec fn initial_info(replicaof: Option<Seq<char>>, listening_port: Seq<char>) -> ReplicationInfoV {
    ReplicationInfoV {
        role: if replicaof is Some {
            "slave"@
        } else {
            "master"@
        },
        connected_slaves: 0,
        master_repl_offset: 0,
        master_replication_id: REPLICATION_ID@,
        second_repl_offset: 0,
        repl_backlog_active: false,
        repl_backlog_size: 0,
        repl_backlog_first_byte_offset: 0,
        repl_backlog_histlen: 0,
        replicaof_addr: replicaof,
        listening_port,
        replicas: Seq::empty(),
    }
}

/// The state after recording a replica: its address is appended and the
/// count of connected replicas grows by one (saturating).
pub open spec fn with_replica(v: ReplicationInfoV, addr: Seq<char>) -> ReplicationInfoV {
    ReplicationInfoV {
        replicas: v.replicas.push(addr),
        connected_slaves: if v.connected_slaves < u64::MAX {
            (v.connected_slaves + 1) as u64
        } else {
            u64::MAX
        },
        ..v
    }
}

/// The text of a boolean.
pub open spec fn bool_text(b: bool) -> Seq<char> {
    if b {
        "true"@
    } else {
        "false"@
    }
}

/// The body of `INFO replication`: a header line, then one `key:value` line per field.
pub open spec fn info_text(v: ReplicationInfoV) -> Seq<u8> {
    encode_utf8("# Replication\nrole:"@) + encode_utf8(v.role) + encode_utf8("\nconnected_slaves:"@)
        + decimal(v.connected_slaves as nat) + encode_utf8("\nmaster_repl_offset:"@) + decimal(
        v.master_repl_offset as nat,
    ) + encode_utf8("\nmaster_replid:"@) + encode_utf8(v.master_replication_id) + encode_utf8(
        "\nsecond_repl_offset:"@,
    ) + signed_decimal(v.second_repl_offset as int) + encode_utf8("\nrepl_backlog_active:"@)
        + encode_utf8(bool_text(v.repl_backlog_active)) + encode_utf8("\nrepl_backlog_size:"@)
        + decimal(v.repl_backlog_size as nat) + encode_utf8("\nrepl_backlog_first_byte_offset:"@)
        + decimal(v.repl_backlog_first_byte_offset as nat) + encode_utf8("\nrepl_backlog_histlen:"@)
        + decimal(v.repl_backlog_histlen as nat) + encode_utf8("\n"@)
}

/// Appends the UTF-8 bytes of `s`.
pub(crate) fn push_str(out: &mut Vec<u8>, s: &str)
    ensures
        final(out)@ == old(out)@ + encode_utf8(s@),
{
    let b = s.as_bytes();
    let mut k: usize = 0;
    while k < b.len()
        invariant
            b@ == encode_utf8(s@),
            k <= b@.len(),
            out@ == old(out)@ + b@.subrange(0, k as int),
        decreases b.len() - k,
    {
        out.push(b[k]);
        assert(out@ =~= old(out)@ + b@.subrange(0, k + 1));
        k = k + 1;
    }
    assert(b@.subrange(0, k as int) =~= b@);
}

/// Appends the base-ten digits of `n`.
pub(crate) fn push_u64(out: &mut Vec<u8>, n: u64)
    ensures
        final(out)@ == old(out)@ + decimal(n as nat),
    decreases n,
{
    if n < 10 {
        out.push((48 + n) as u8);
        assert(final(out)@ =~= old(out)@ + decimal(n as nat));
    } else {
        push_u64(out, n / 10);
        out.push((48 + n % 10) as u8);
        assert(final(out)@ =~= old(out)@ + decimal(n as nat));
    }
}

/// Appends the text of `n`, with a `-` when negative.
pub(crate) fn push_i64(out: &mut Vec<u8>, n: i64)
    ensures
        final(out)@ == old(out)@ + signed_decimal(n as int),
{
    if n < 0 {
        out.push(45);
        let m: u64 = if n == i64::MIN {
            0x8000_0000_0000_0000
        } else {
            (-n) as u64
        };
        push_u64(out, m);
        assert(final(out)@ =~= old(out)@ + signed_decimal(n as int));
    } else {
        push_u64(out, n as u64);
    }
}

impl ReplicationInfo {
    /// The state of a primary when `replicaof` is `None`, else of a replica of that address.
    pub fn new(replicaof: Option<String>, listening_port: String) -> (r: ReplicationInfo)
        ensures
            r@ == initial_info(opt_text(replicaof), listening_port@),
    {
        let role = match replicaof {
            Some(_) => "slave".to_string(),
            None => "master".to_string(),
        };
        let r = ReplicationInfo {
            role,
            connected_slaves: 0,
            master_repl_offset: 0,
            master_replication_id: REPLICATION_ID.to_string(),
            second_repl_offset: 0,
            repl_backlog_active: false,
            repl_backlog_size: 0,
            repl_backlog_first_byte_offset: 0,
            repl_backlog_histlen: 0,
            reaplicaof_addr: replicaof,
            listening_port,
            replicas: Vec::new(),
        };
        assert(r@.replicas =~= Seq::<Seq<char>>::empty());
        r
    }

    /// The body of `INFO replication`.
    pub fn get_info_bytes(&self) -> (r: Vec<u8>)
        ensures
            r@ == info_text(self@),
    {
        let mut out: Vec<u8> = Vec::new();
        push_str(&mut out, "# Replication\nrole:");
        push_str(&mut out, self.role.as_str());
        push_str(&mut out, "\nconnected_slaves:");
        push_u64(&mut out, self.connected_slaves);
        push_str(&mut out, "\nmaster_repl_offset:");
        push_u64(&mut out, self.master_repl_offset);
        push_str(&mut out, "\nmaster_replid:");
        push_str(&mut out, self.master_replication_id.as_str());
        push_str(&mut out, "\nsecond_repl_offset:");
        push_i64(&mut out, self.second_repl_offset);
        push_str(&mut out, "\nrepl_backlog_active:");
        if self.repl_backlog_active {
            push_str(&mut out, "true");
        } else {
            push_str(&mut out, "false");
        }
        push_str(&mut out, "\nrepl_backlog_size:");
        push_u64(&mut out, self.repl_backlog_size);
        push_str(&mut out, "\nrepl_backlog_first_byte_offset:");
        push_u64(&mut out, self.repl_backlog_first_byte_offset);
        push_str(&mut out, "\nrepl_backlog_histlen:");
        push_u64(&mut out, self.repl_backlog_histlen);
        push_str(&mut out, "\n");
        assert(out@ =~= info_text(self@));
        out
    }

    pub fn get_replication_id(&self) -> (r: String)
        ensures
            r@ == self@.master_replication_id,
    {
        self.master_replication_id.clone()
    }

    pub fn get_replication_offset(&self) -> (r: u64)
        ensures
            r == self@.master_repl_offset,
    {
        self.master_repl_offset
    }

    /// Whether this server is a primary.
    pub fn is_master(&self) -> (r: bool)
        ensures
            r == (self@.role == "master"@),
    {
        proof {
            reveal_strlit("master");
        }
        let m = "master".to_string();
        self.role == m
    }

    /// The address of the primary, for a replica.
    pub fn get_replicaof_addr(&self) -> (r: Option<String>)
        ensures
            r matches Some(a) ==> self@.replicaof_addr == Some(a@),
            r is None ==> self@.replicaof_addr is None,
    {
        match &self.reaplicaof_addr {
            Some(a) => Some(a.clone()),
            None => None,
        }
    }

    /// The port this server listens on.
    pub fn get_listening_port(&self) -> (r: String)
        ensures
            r@ == self@.listening_port,
    {
        self.listening_port.clone()
    }

    /// Records a replica of this primary.
    pub fn add_replica(&mut self, addr: String)
        requires
            old(self)@.role == "master"@,
        ensures
            final(self)@ == with_replica(old(self)@, addr@),
    {
        let ghost a = addr@;
        self.replicas.push(addr);
        self.connected_slaves = self.connected_slaves.saturating_add(1);
        assert(texts(self.replicas@) =~= texts(old(self).replicas@).push(a));
    }

    /// The addresses of the replicas, in the order they were recorded.
    pub fn get_replicas(&self) -> (r: Vec<String>)
        ensures
            texts(r@) == self@.replicas,
    {
        let mut out: Vec<String> = Vec::new();
        let mut k: usize = 0;
        while k < self.replicas.len()
            invariant
                k <= self.replicas@.len(),
                out@.len() == k,
                texts(out@) == texts(self.replicas@).subrange(0, k as int),
            decreases self.replicas.len() - k,
        {
            let ghost before = out@;
            let item = self.replicas[k].clone();
            assert(item@ == self.replicas@[k as int]@);
            out.push(item);
            assert(out@ == before.push(item));
            assert forall|i: int| 0 <= i < k + 1 implies texts(out@)[i] == texts(self.replicas@)[i] by {
                if i < k {
                    assert(texts(before)[i] == texts(self.replicas@).subrange(0, k as int)[i]);
                    assert(out@[i] == before[i]);
                }
            }
            assert(texts(out@) =~= texts(self.replicas@).subrange(0, k + 1));
            k = k + 1;
        }
        assert(texts(self.replicas@).subrange(0, k as int) =~= texts(self.replicas@));
        out
    }

    /// A copy of this state.
    pub fn copy(&self) -> (r: ReplicationInfo)
        ensures
            r@ == self@,
    {
        let r = ReplicationInfo {
            role: self.role.clone(),
            connected_slaves: self.connected_slaves,
            master_repl_offset: self.master_repl_offset,
            master_replication_id: self.master_replication_id.clone(),
            second_repl_offset: self.second_repl_offset,
            repl_backlog_active: self.repl_backlog_active,
            repl_backlog_size: self.repl_backlog_size,
            repl_backlog_first_byte_offset: self.repl_backlog_first_byte_offset,
            repl_backlog_histlen: self.repl_backlog_histlen,
            reaplicaof_addr: self.get_replicaof_addr(),
            listening_port: self.listening_port.clone(),
            replicas: self.get_replicas(),
        };
        assert(r@ == self@);
        r
    }
}

// ----- The replica side -----

/// Where the replica stands in its exchange with the primary.
#[derive(PartialEq, Eq, Structural)]
pub enum HandshakeStep {
    /// Not started: the `PING` is not sent yet.
    Connecting,
    AwaitPong,
    AwaitPortOk,
    AwaitCapaOk,
    AwaitFullResync,
    /// The snapshot comes next, as a file frame.
    AwaitSnapshot,
    /// Applying the replication stream.
    Streaming,
}

/// What the replica does after a frame from the primary; the next frame is
/// read afterwards in every case.
pub enum WorkerAction {
    /// Send this frame to the primary.
    Send(Frame),
    /// Apply this write to the local store, without a reply.
    Apply(SetCmd),
    /// Nothing to do.
    Skip,
}

/// The value of a [`WorkerAction`].
pub enum WorkerActionV {
    Send(FrameV),
    Apply(CommandV),
    Skip,
}

/// `s` spells `word` (lower case), ignoring the case of ASCII letters.
pub open spec fn is_word(s: Seq<char>, word: Seq<char>) -> bool {
    s.len() == word.len() && forall|i: int|
        0 <= i < s.len() ==> #[trigger] lower_char(s[i]) == word[i]
}

pub open spec fn lower_char(c: char) -> char {
    if 'A' <= c <= 'Z' {
        ((c as u32) + 32) as char
    } else {
        c
    }
}

pub open spec fn ping_frame() -> FrameV {
    FrameV::Array(seq![bulk_text("PING"@)])
}

pub open spec fn listening_port_frame(port: Seq<char>) -> FrameV {
    FrameV::Array(seq![bulk_text("REPLCONF"@), bulk_text("listening-port"@), bulk_text(port)])
}

pub open spec fn capa_frame() -> FrameV {
    FrameV::Array(seq![bulk_text("REPLCONF"@), bulk_text("capa"@), bulk_text("psync2"@)])
}

pub open spec fn psync_frame() -> FrameV {
    FrameV::Array(seq![bulk_text("PSYNC"@), bulk_text("?"@), bulk_text("-1"@)])
}

/// A status line that spells `word`, in any case.
pub open spec fn is_status(f: FrameV, word: Seq<char>) -> bool {
    f matches FrameV::Simple(s) && is_word(s, word)
}

/// One step of the replica: the next step and the action for a frame from
/// the primary, or `None` when the frame is not the one the step awaits.
pub open spec fn worker_step(step: HandshakeStep, f: FrameV, port: Seq<char>) -> Option<(HandshakeStep, WorkerActionV)> {
    match step {
        HandshakeStep::Connecting => None,
        HandshakeStep::AwaitPong => if is_status(f, "pong"@) {
            Some((HandshakeStep::AwaitPortOk, WorkerActionV::Send(listening_port_frame(port))))
        } else {
            None
        },
        HandshakeStep::AwaitPortOk => if is_status(f, "ok"@) {
            Some((HandshakeStep::AwaitCapaOk, WorkerActionV::Send(capa_frame())))
        } else {
            None
        },
        HandshakeStep::AwaitCapaOk => if is_status(f, "ok"@) {
            Some((HandshakeStep::AwaitFullResync, WorkerActionV::Send(psync_frame())))
        } else {
            None
        },
        HandshakeStep::AwaitFullResync => match f {
            FrameV::Simple(s) if s.len() >= 10 && s.subrange(0, 10) == "FULLRESYNC"@ => Some(
                (HandshakeStep::AwaitSnapshot, WorkerActionV::Skip),
            ),
            _ => None,
        },
        HandshakeStep::AwaitSnapshot => match f {
            FrameV::File(_) => Some((HandshakeStep::Streaming, WorkerActionV::Skip)),
            _ => None,
        },
        HandshakeStep::Streaming => match command_spec(f) {
            Ok(CommandV::SetCmd(k, v, d)) => Some(
                (HandshakeStep::Streaming, WorkerActionV::Apply(CommandV::SetCmd(k, v, d))),
            ),
            _ => Some((HandshakeStep::Streaming, WorkerActionV::Skip)),
        },
    }
}

/// The replica's first frames are `PING`, `REPLCONF listening-port <port>`,
/// `REPLCONF capa psync2` and `PSYNC ? -1`; each goes out only once the
/// reply to the one before has come (`+PONG`, `+OK`, `+OK`), and any other
/// reply ends the handshake.
pub proof fn law_handshake_shape(port: Seq<char>, r1: FrameV, r2: FrameV, r3: FrameV)
    ensures
        is_status(r1, "pong"@) ==> worker_step(HandshakeStep::AwaitPong, r1, port) == Some(
            (HandshakeStep::AwaitPortOk, WorkerActionV::Send(listening_port_frame(port))),
        ),
        !is_status(r1, "pong"@) ==> worker_step(HandshakeStep::AwaitPong, r1, port) is None,
        is_status(r2, "ok"@) ==> worker_step(HandshakeStep::AwaitPortOk, r2, port) == Some(
            (HandshakeStep::AwaitCapaOk, WorkerActionV::Send(capa_frame())),
        ),
        !is_status(r2, "ok"@) ==> worker_step(HandshakeStep::AwaitPortOk, r2, port) is None,
        is_status(r3, "ok"@) ==> worker_step(HandshakeStep::AwaitCapaOk, r3, port) == Some(
            (HandshakeStep::AwaitFullResync, WorkerActionV::Send(psync_frame())),
        ),
        !is_status(r3, "ok"@) ==> worker_step(HandshakeStep::AwaitCapaOk, r3, port) is None,
{
}

/// The decisions of a replica: the handshake with its primary, then the
/// replication stream.
pub struct ReplicationWorker {
    replication_info: ReplicationInfo,
    step: HandshakeStep,
}

fn bulk_list(items: Vec<Frame>) -> (r: Frame)
    ensures
        r@ == FrameV::Array(views(items@)),
{
    proof {
        lemma_array_view(items);
    }
    Frame::Array(items)
}

fn command_frame3(a: &str, b: &str, c: &str) -> (r: Frame)
    ensures
        r@ == FrameV::Array(seq![bulk_text(a@), bulk_text(b@), bulk_text(c@)]),
{
    let mut items: Vec<Frame> = Vec::new();
    items.push(crate::commands::bulk_str(a));
    items.push(crate::commands::bulk_str(b));
    items.push(crate::commands::bulk_str(c));
    let ghost iv = views(items@);
    assert(iv =~= seq![bulk_text(a@), bulk_text(b@), bulk_text(c@)]);
    bulk_list(items)
}

/// Whether `s` spells `word` (lower case), ignoring the case of ASCII letters.
fn word_is(s: &str, word: &str) -> (r: bool)
    ensures
        r == is_word(s@, word@),
{
    let n = word.unicode_len();
    if s.unicode_len() != n {
        return false;
    }
    let mut i: usize = 0;
    while i < n
        invariant
            n == word@.len(),
            s@.len() == n,
            i <= n,
            forall|j: int| 0 <= j < i ==> #[trigger] lower_char(s@[j]) == word@[j],
        decreases n - i,
    {
        let c = s.get_char(i);
        let l = if 'A' <= c && c <= 'Z' {
            ((c as u32) + 32) as u8 as char
        } else {
            c
        };
        assert(l == lower_char(c));
        if l != word.get_char(i) {
            return false;
        }
        i = i + 1;
    }
    true
}

/// Whether `s` starts with `prefix`.
fn starts_with(s: &str, prefix: &str) -> (r: bool)
    ensures
        r == (s@.len() >= prefix@.len() && s@.subrange(0, prefix@.len() as int) == prefix@),
{
    let n = prefix.unicode_len();
    if s.unicode_len() < n {
        return false;
    }
    let mut i: usize = 0;
    while i < n
        invariant
            n == prefix@.len(),
            s@.len() >= n,
            i <= n,
            forall|j: int| 0 <= j < i ==> #[trigger] s@[j] == prefix@[j],
        decreases n - i,
    {
        if s.get_char(i) != prefix.get_char(i) {
            assert(s@.subrange(0, n as int)[i as int] != prefix@[i as int]);
            return false;
        }
        i = i + 1;
    }
    assert(s@.subrange(0, n as int) =~= prefix@);
    true
}

impl ReplicationWorker {
    /// A worker for a replica with this replication state, not started yet.
    pub fn new(replication_info: ReplicationInfo) -> (r: ReplicationWorker)
        ensures
            r.step() == HandshakeStep::Connecting,
            r.info() == replication_info@,
    {
        ReplicationWorker { replication_info, step: HandshakeStep::Connecting }
    }

    pub closed spec fn step(&self) -> HandshakeStep {
        self.step
    }

    pub closed spec fn info(&self) -> ReplicationInfoV {
        self.replication_info@
    }

    /// The address of the primary.
    pub fn upstream(&self) -> (r: Option<String>)
        ensures
            r matches Some(a) ==> self.info().replicaof_addr == Some(a@),
            r is None ==> self.info().replicaof_addr is None,
    {
        self.replication_info.get_replicaof_addr()
    }

    /// Starts the handshake: the first frame for the primary is `PING`.
    pub fn start(&mut self) -> (r: Frame)
        ensures
            r@ == ping_frame(),
            final(self).step() == HandshakeStep::AwaitPong,
            final(self).info() == old(self).info(),
    {
        self.step = HandshakeStep::AwaitPong;
        let mut items: Vec<Frame> = Vec::new();
        items.push(crate::commands::bulk_str("PING"));
        let ghost iv = views(items@);
        assert(iv =~= seq![bulk_text("PING"@)]);
        bulk_list(items)
    }

    /// Whether the next frame from the primary is the snapshot, which has no
    /// trailing CRLF.
    pub fn expects_file(&self) -> (r: bool)
        ensures
            r == (self.step() == HandshakeStep::AwaitSnapshot),
    {
        self.step == HandshakeStep::AwaitSnapshot
    }

    /// Takes a frame from the primary. A frame that is not the reply the
    /// handshake awaits ends the worker with an error.
    pub fn on_frame(&mut self, frame: Frame) -> (r: Result<WorkerAction, String>)
        ensures
            final(self).info() == old(self).info(),
            match worker_step(old(self).step(), frame@, old(self).info().listening_port) {
                Some((next, action)) => final(self).step() == next && (r matches Ok(a) && a@ == action),
                None => r is Err && final(self).step() == old(self).step(),
            },
    {
        match self.step {
            HandshakeStep::Connecting => Err("The handshake has not started".to_string()),
            HandshakeStep::AwaitPong => {
                if let Frame::Simple(s) = &frame {
                    if word_is(s.as_str(), "pong") {
                        self.step = HandshakeStep::AwaitPortOk;
                        let port = self.replication_info.get_listening_port();
                        return Ok(WorkerAction::Send(command_frame3("REPLCONF", "listening-port", port.as_str())));
                    }
                }
                Err("Did not get PONG response from master".to_string())
            },
            HandshakeStep::AwaitPortOk => {
                if let Frame::Simple(s) = &frame {
                    if word_is(s.as_str(), "ok") {
                        self.step = HandshakeStep::AwaitCapaOk;
                        return Ok(WorkerAction::Send(command_frame3("REPLCONF", "capa", "psync2")));
                    }
                }
                Err("Did not get OK response from master".to_string())
            },
            HandshakeStep::AwaitCapaOk => {
                if let Frame::Simple(s) = &frame {
                    if word_is(s.as_str(), "ok") {
                        self.step = HandshakeStep::AwaitFullResync;
                        return Ok(WorkerAction::Send(command_frame3("PSYNC", "?", "-1")));
                    }
                }
                Err("Did not get OK response from master".to_string())
            },
            HandshakeStep::AwaitFullResync => {
                if let Frame::Simple(s) = &frame {
                    if starts_with(s.as_str(), "FULLRESYNC") {
                        proof {
                            reveal_strlit("FULLRESYNC");
                        }
                        self.step = HandshakeStep::AwaitSnapshot;
                        return Ok(WorkerAction::Skip);
                    }
                }
                proof {
                    reveal_strlit("FULLRESYNC");
                }
                Err("Did not get FULLRESYNC response from master".to_string())
            },
            HandshakeStep::AwaitSnapshot => {
                if let Frame::File(_) = &frame {
                    self.step = HandshakeStep::Streaming;
                    return Ok(WorkerAction::Skip);
                }
                Err("Did not get RDB file from master".to_string())
            },
            HandshakeStep::Streaming => {
                match Command::from_frame(frame) {
                    Ok(Command::SetCmd(cmd)) => Ok(WorkerAction::Apply(cmd)),
                    _ => Ok(WorkerAction::Skip),
                }
            },
        }
    }
}

impl View for WorkerAction {
    type V = WorkerActionV;

    open spec fn view(&self) -> WorkerActionV {
        match self {
            WorkerAction::Send(f) => WorkerActionV::Send(f@),
            WorkerAction::Apply(s) => WorkerActionV::Apply(
                CommandV::SetCmd(s.key@, s.val@, s.expiry_duration_millis),
            ),
            WorkerAction::Skip => WorkerActionV::Skip,
        }
    }
}

} // verus!
