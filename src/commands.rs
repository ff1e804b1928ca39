use vstd::prelude::*;
use vstd::utf8::*;

use crate::db::{EntryV, RedisState};
use crate::frame::{
    all_digits, copy_range, decimal, digits_value, get_integer, integer_of, is_digit, lemma_array_view,
    lemma_digits_value_prefix, string_from_utf8, unsigned_of, views, Frame, FrameV,
};
use crate::replication::{info_text, texts, with_replica, ReplicationInfoV, EMPTY_RDB_FILE_BYTES};

verus! {

/// `PING`: answered with `+PONG`.
pub struct Ping {}

/// A command this server does not know.
pub struct Unknown {}

/// `COMMAND`: answered with an empty array.
pub struct CommandList {}

/// `ECHO arg`: answered with the argument.
pub struct Echo {
    pub arg: Vec<u8>,
}

/// `SET key value [EX seconds | PX millis]`.
pub struct SetCmd {
    pub key: String,
    pub val: Vec<u8>,
    pub expiry_duration_millis: Option<u128>,
}

/// `GET key`.
pub struct Get {
    pub key: String,
}

/// `INFO [section]`.
pub struct Info {
    pub section: Option<String>,
}

/// The options of `REPLCONF`.
pub enum ReplConfOption {
    ListeningPort(String),
    Capabilities(Vec<String>),
    GetAck(String),
}

/// `REPLCONF option args...`.
pub struct ReplConf {
    pub option: ReplConfOption,
}

/// `PSYNC replid offset`.
pub struct Psync {
    pub replication_id: String,
    pub _replication_offset: i64,
}

/// A parsed command.
pub enum Command {
    Ping(Ping),
    CommandList(CommandList),
    Echo(Echo),
    Unknown(Unknown),
    SetCmd(SetCmd),
    Get(Get),
    Info(Info),
    ReplConf(ReplConf),
    Psync(Psync),
}

/// The commands that take arguments, for error messages.
#[derive(Debug, PartialEq, Eq, Structural)]
pub enum CommandName {
    Echo,
    Get,
    SetCmd,
    Info,
    ReplConf,
    Psync,
}

/// Why a frame is not a valid command.
#[derive(Debug, PartialEq, Eq, Structural)]
pub enum CommandError {
    /// The frame is not a non-empty array whose first element is a bulk string.
    NotAnArray,
    /// A name or argument that must be text is not valid UTF-8.
    InvalidUtf8,
    WrongArgCount(CommandName),
    WrongArgument(CommandName),
    /// The expiry unit of `SET` is neither `EX` nor `PX`.
    InvalidExpiryUnit,
    /// A number argument is not a decimal number in range.
    InvalidNumber,
}

/// The value of a [`ReplConfOption`].
pub enum ReplConfOptionV {
    ListeningPort(Seq<char>),
    Capabilities(Seq<Seq<char>>),
    GetAck(Seq<char>),
}

/// The value of a [`Command`].
pub enum CommandV {
    Ping,
    CommandList,
    Echo(Seq<u8>),
    Unknown,
    SetCmd(Seq<char>, Seq<u8>, Option<u128>),
    Get(Seq<char>),
    Info(Option<Seq<char>>),
    ReplConf(ReplConfOptionV),
    Psync(Seq<char>, i64),
}

impl View for ReplConfOption {
    type V = ReplConfOptionV;

    open spec fn view(&self) -> ReplConfOptionV {
        match self {
            ReplConfOption::ListeningPort(p) => ReplConfOptionV::ListeningPort(p@),
            ReplConfOption::Capabilities(c) => ReplConfOptionV::Capabilities(
                crate::replication::texts(c@),
            ),
            ReplConfOption::GetAck(a) => ReplConfOptionV::GetAck(a@),
        }
    }
}

impl View for Command {
    type V = CommandV;

    open spec fn view(&self) -> CommandV {
        match self {
            Command::Ping(_) => CommandV::Ping,
            Command::CommandList(_) => CommandV::CommandList,
            Command::Echo(e) => CommandV::Echo(e.arg@),
            Command::Unknown(_) => CommandV::Unknown,
            Command::SetCmd(s) => CommandV::SetCmd(s.key@, s.val@, s.expiry_duration_millis),
            Command::Get(g) => CommandV::Get(g.key@),
            Command::Info(i) => CommandV::Info(crate::replication::opt_text(i.section)),
            Command::ReplConf(r) => CommandV::ReplConf(r.option@),
            Command::Psync(p) => CommandV::Psync(p.replication_id@, p._replication_offset),
        }
    }
}

/// The upper-case name of a command.
pub open spec fn name_text(n: CommandName) -> Seq<char> {
    match n {
        CommandName::Echo => "ECHO"@,
        CommandName::Get => "GET"@,
        CommandName::SetCmd => "SET"@,
        CommandName::Info => "INFO"@,
        CommandName::ReplConf => "REPLCONF"@,
        CommandName::Psync => "PSYNC"@,
    }
}

/// The text of the error reply for a command error.
pub open spec fn error_text(e: CommandError) -> Seq<char> {
    match e {
        CommandError::NotAnArray => "ERR: Need a RESP array as command"@,
        CommandError::InvalidUtf8 => "ERR: Invalid UTF-8"@,
        CommandError::WrongArgCount(n) => "ERR: Wrong number of arguments for "@ + name_text(n),
        CommandError::WrongArgument(n) => "ERR: Wrong argument for "@ + name_text(n),
        CommandError::InvalidExpiryUnit => "ERR: Wrong expiry command"@,
        CommandError::InvalidNumber => "ERR: Invalid number"@,
    }
}

impl CommandName {
    pub fn as_str(&self) -> (r: &'static str)
        ensures
            r@ == name_text(*self),
    {
        match self {
            CommandName::Echo => "ECHO",
            CommandName::Get => "GET",
            CommandName::SetCmd => "SET",
            CommandName::Info => "INFO",
            CommandName::ReplConf => "REPLCONF",
            CommandName::Psync => "PSYNC",
        }
    }
}

impl CommandError {
    /// The text of the error reply.
    pub fn message(&self) -> (r: String)
        ensures
            r@ == error_text(*self),
    {
        match self {
            CommandError::NotAnArray => "ERR: Need a RESP array as command".to_string(),
            CommandError::InvalidUtf8 => "ERR: Invalid UTF-8".to_string(),
            CommandError::WrongArgCount(n) => {
                let mut m = "ERR: Wrong number of arguments for ".to_string();
                m.append(n.as_str());
                m
            },
            CommandError::WrongArgument(n) => {
                let mut m = "ERR: Wrong argument for ".to_string();
                m.append(n.as_str());
                m
            },
            CommandError::InvalidExpiryUnit => "ERR: Wrong expiry command".to_string(),
            CommandError::InvalidNumber => "ERR: Invalid number".to_string(),
        }
    }

    /// The error reply for this error.
    pub fn to_frame(&self) -> (r: Frame)
        ensures
            r@ == FrameV::Error(error_text(*self)),
    {
        Frame::Error(self.message())
    }
}

// ----- What a frame means as a command -----

/// The payload of element `i` when it is a bulk string.
pub open spec fn bulk_at(a: Seq<FrameV>, i: int) -> Option<Seq<u8>> {
    if 0 <= i < a.len() {
        match a[i] {
            FrameV::Bulk(Some(b)) => Some(b),
            _ => None,
        }
    } else {
        None
    }
}

/// The bytes of element `i` when it is a bulk string or a status line.
pub open spec fn text_at(a: Seq<FrameV>, i: int) -> Option<Seq<u8>> {
    if 0 <= i < a.len() {
        match a[i] {
            FrameV::Bulk(Some(b)) => Some(b),
            FrameV::Simple(s) => Some(encode_utf8(s)),
            _ => None,
        }
    } else {
        None
    }
}

pub open spec fn ascii_lower(b: u8) -> u8 {
    if 65 <= b <= 90 {
        (b + 32) as u8
    } else {
        b
    }
}

/// `b` spells `name`, ignoring the case of ASCII letters; `name` is lower case.
pub open spec fn is_name(b: Seq<u8>, name: Seq<char>) -> bool {
    b.len() == name.len() && forall|i: int|
        0 <= i < b.len() ==> ascii_lower(#[trigger] b[i]) as u32 == name[i] as u32
}

/// `b` spells `text` exactly, in ASCII.
pub open spec fn is_text(b: Seq<u8>, text: Seq<char>) -> bool {
    b.len() == text.len() && forall|i: int| 0 <= i < b.len() ==> #[trigger] b[i] as u32 == text[i] as u32
}

/// The expiry clause of `SET`, in milliseconds, from elements 3 and 4.
pub open spec fn expiry_spec(a: Seq<FrameV>) -> Result<Option<u128>, CommandError> {
    if a.len() != 5 {
        Ok(None)
    } else {
        match text_at(a, 3) {
            None => Err(CommandError::WrongArgument(CommandName::SetCmd)),
            Some(unit) => if !is_name(unit, "ex"@) && !is_name(unit, "px"@) {
                Err(CommandError::InvalidExpiryUnit)
            } else {
                let mult: nat = if is_name(unit, "ex"@) {
                    1000
                } else {
                    1
                };
                match text_at(a, 4) {
                    None => Err(CommandError::WrongArgument(CommandName::SetCmd)),
                    Some(d) => match unsigned_of(d) {
                        Some(n) if n * mult <= u128::MAX => Ok(Some((n * mult) as u128)),
                        _ => Err(CommandError::InvalidNumber),
                    },
                }
            },
        }
    }
}

/// The capabilities of `REPLCONF capa`, from element `i` on.
pub open spec fn capabilities_spec(a: Seq<FrameV>, i: int) -> Result<Seq<Seq<char>>, CommandError>
    decreases a.len() - i,
{
    if i < 0 || i >= a.len() {
        Ok(Seq::empty())
    } else {
        match bulk_at(a, i) {
            None => Err(CommandError::WrongArgument(CommandName::ReplConf)),
            Some(b) => if !valid_utf8(b) {
                Err(CommandError::InvalidUtf8)
            } else {
                match capabilities_spec(a, i + 1) {
                    Ok(rest) => Ok(seq![decode_utf8(b)] + rest),
                    Err(e) => Err(e),
                }
            },
        }
    }
}

/// Element `i` as text: a bulk string holding valid UTF-8.
pub open spec fn text_arg(a: Seq<FrameV>, i: int, name: CommandName) -> Result<Seq<char>, CommandError> {
    match bulk_at(a, i) {
        None => Err(CommandError::WrongArgument(name)),
        Some(b) => if valid_utf8(b) {
            Ok(decode_utf8(b))
        } else {
            Err(CommandError::InvalidUtf8)
        },
    }
}

pub open spec fn set_spec(a: Seq<FrameV>) -> Result<CommandV, CommandError> {
    if a.len() != 3 && a.len() != 5 {
        Err(CommandError::WrongArgCount(CommandName::SetCmd))
    } else {
        match (bulk_at(a, 1), bulk_at(a, 2)) {
            (Some(k), Some(v)) => match expiry_spec(a) {
                Err(e) => Err(e),
                Ok(x) => if valid_utf8(k) {
                    Ok(CommandV::SetCmd(decode_utf8(k), v, x))
                } else {
                    Err(CommandError::InvalidUtf8)
                },
            },
            _ => Err(CommandError::WrongArgument(CommandName::SetCmd)),
        }
    }
}

pub open spec fn replconf_spec(a: Seq<FrameV>) -> Result<CommandV, CommandError> {
    if a.len() < 3 {
        Err(CommandError::WrongArgCount(CommandName::ReplConf))
    } else {
        match bulk_at(a, 1) {
            None => Err(CommandError::WrongArgument(CommandName::ReplConf)),
            Some(o) => if !valid_utf8(o) {
                Err(CommandError::InvalidUtf8)
            } else if is_text(o, "listening-port"@) {
                match text_arg(a, 2, CommandName::ReplConf) {
                    Ok(p) => Ok(CommandV::ReplConf(ReplConfOptionV::ListeningPort(p))),
                    Err(e) => Err(e),
                }
            } else if is_text(o, "capa"@) {
                match capabilities_spec(a, 2) {
                    Ok(c) => Ok(CommandV::ReplConf(ReplConfOptionV::Capabilities(c))),
                    Err(e) => Err(e),
                }
            } else if is_text(o, "getack"@) {
                match text_arg(a, 2, CommandName::ReplConf) {
                    Ok(x) => Ok(CommandV::ReplConf(ReplConfOptionV::GetAck(x))),
                    Err(e) => Err(e),
                }
            } else {
                Err(CommandError::WrongArgument(CommandName::ReplConf))
            },
        }
    }
}

pub open spec fn psync_spec(a: Seq<FrameV>) -> Result<CommandV, CommandError> {
    if a.len() != 3 {
        Err(CommandError::WrongArgCount(CommandName::Psync))
    } else {
        match text_arg(a, 1, CommandName::Psync) {
            Err(e) => Err(e),
            Ok(id) => match bulk_at(a, 2) {
                None => Err(CommandError::WrongArgument(CommandName::Psync)),
                Some(o) => match integer_of(o) {
                    Some(n) => Ok(CommandV::Psync(id, n)),
                    None => Err(CommandError::InvalidNumber),
                },
            },
        }
    }
}

/// A command with exactly one argument, which must be a bulk string.
pub open spec fn one_arg(a: Seq<FrameV>, name: CommandName) -> Result<Seq<u8>, CommandError> {
    if a.len() != 2 {
        Err(CommandError::WrongArgCount(name))
    } else {
        match bulk_at(a, 1) {
            Some(b) => Ok(b),
            None => Err(CommandError::WrongArgument(name)),
        }
    }
}

/// What a frame means as a command: an array whose first element is the
/// command name, in any case of ASCII letters.
pub open spec fn command_spec(f: FrameV) -> Result<CommandV, CommandError> {
    match f {
        FrameV::Array(a) => match bulk_at(a, 0) {
            None => Err(CommandError::NotAnArray),
            Some(name) => if !valid_utf8(name) {
                Err(CommandError::InvalidUtf8)
            } else if is_name(name, "ping"@) {
                Ok(CommandV::Ping)
            } else if is_name(name, "command"@) {
                Ok(CommandV::CommandList)
            } else if is_name(name, "echo"@) {
                match one_arg(a, CommandName::Echo) {
                    Ok(b) => Ok(CommandV::Echo(b)),
                    Err(e) => Err(e),
                }
            } else if is_name(name, "get"@) {
                match one_arg(a, CommandName::Get) {
                    Ok(b) => if valid_utf8(b) {
                        Ok(CommandV::Get(decode_utf8(b)))
                    } else {
                        Err(CommandError::InvalidUtf8)
                    },
                    Err(e) => Err(e),
                }
            } else if is_name(name, "set"@) {
                set_spec(a)
            } else if is_name(name, "info"@) {
                match one_arg(a, CommandName::Info) {
                    Ok(b) => if valid_utf8(b) {
                        Ok(CommandV::Info(Some(decode_utf8(b))))
                    } else {
                        Err(CommandError::InvalidUtf8)
                    },
                    Err(e) => Err(e),
                }
            } else if is_name(name, "replconf"@) {
                replconf_spec(a)
            } else if is_name(name, "psync"@) {
                psync_spec(a)
            } else {
                Ok(CommandV::Unknown)
            },
        },
        _ => Err(CommandError::NotAnArray),
    }
}

// ----- Reading a command out of a frame -----

fn bulk_arg(a: &Vec<Frame>, i: usize) -> (r: Option<&Vec<u8>>)
    ensures
        r matches Some(b) ==> bulk_at(views(a@), i as int) == Some(b@),
        r is None ==> bulk_at(views(a@), i as int) is None,
{
    if i < a.len() {
        match &a[i] {
            Frame::Bulk(Some(b)) => Some(b),
            _ => None,
        }
    } else {
        None
    }
}

fn text_arg_bytes(a: &Vec<Frame>, i: usize) -> (r: Option<Vec<u8>>)
    ensures
        r matches Some(b) ==> text_at(views(a@), i as int) == Some(b@),
        r is None ==> text_at(views(a@), i as int) is None,
{
    if i < a.len() {
        match &a[i] {
            Frame::Bulk(Some(b)) => Some(copy_bytes(b.as_slice())),
            Frame::Simple(s) => {
                Some(copy_bytes(s.as_str().as_bytes()))
            },
            _ => None,
        }
    } else {
        None
    }
}

fn copy_bytes(b: &[u8]) -> (r: Vec<u8>)
    ensures
        r@ == b@,
{
    let r = copy_range(b, 0, b.len());
    assert(r@ =~= b@);
    r
}

/// The text of `b` when it is valid UTF-8.
fn to_text(b: &Vec<u8>) -> (r: Option<String>)
    ensures
        r is Some <==> valid_utf8(b@),
        r matches Some(s) ==> s@ == decode_utf8(b@),
{
    string_from_utf8(copy_bytes(b.as_slice()))
}

fn lower(b: u8) -> (r: u8)
    ensures
        r == ascii_lower(b),
{
    if 65 <= b && b <= 90 {
        b + 32
    } else {
        b
    }
}

/// Whether `b` spells `name` (lower case), ignoring the case of ASCII letters.
fn name_is(b: &[u8], name: &str) -> (r: bool)
    ensures
        r == is_name(b@, name@),
{
    let n = name.unicode_len();
    if b.len() != n {
        return false;
    }
    let mut i: usize = 0;
    while i < n
        invariant
            n == name@.len(),
            b@.len() == n,
            i <= n,
            forall|j: int| 0 <= j < i ==> ascii_lower(#[trigger] b@[j]) as u32 == name@[j] as u32,
        decreases n - i,
    {
        let c = name.get_char(i);
        if lower(b[i]) as u32 != c as u32 {
            return false;
        }
        i = i + 1;
    }
    true
}

/// Whether `b` spells `text` exactly.
fn text_is(b: &[u8], text: &str) -> (r: bool)
    ensures
        r == is_text(b@, text@),
{
    let n = text.unicode_len();
    if b.len() != n {
        return false;
    }
    let mut i: usize = 0;
    while i < n
        invariant
            n == text@.len(),
            b@.len() == n,
            i <= n,
            forall|j: int| 0 <= j < i ==> #[trigger] b@[j] as u32 == text@[j] as u32,
        decreases n - i,
    {
        let c = text.get_char(i);
        if b[i] as u32 != c as u32 {
            return false;
        }
        i = i + 1;
    }
    true
}

/// Reads `b` as an unsigned decimal number that fits a `u128`.
fn get_u128(b: &[u8]) -> (r: Option<u128>)
    ensures
        match unsigned_of(b@) {
            Some(n) => if n <= u128::MAX { r == Some(n as u128) } else { r is None },
            None => r is None,
        },
{
    if b.len() == 0 {
        return None;
    }
    let mut acc: u128 = 0;
    let mut k: usize = 0;
    while k < b.len()
        invariant
            k <= b@.len(),
            all_digits(b@.subrange(0, k as int)),
            acc == digits_value(b@.subrange(0, k as int)),
        decreases b.len() - k,
    {
        let ghost next = b@.subrange(0, k + 1);
        assert(next.drop_last() =~= b@.subrange(0, k as int));
        if b[k] < 48 || b[k] > 57 {
            assert(!is_digit(b@[k as int]));
            return None;
        }
        let digit = (b[k] - 48) as u128;
        proof {
            lemma_digits_value_prefix(b@, k + 1);
        }
        match acc.checked_mul(10) {
            None => {
                return None;
            },
            Some(m) => match m.checked_add(digit) {
                None => {
                    return None;
                },
                Some(v) => {
                    acc = v;
                },
            },
        }
        k = k + 1;
    }
    assert(b@.subrange(0, k as int) =~= b@);
    Some(acc)
}

fn parse_expiry(a: &Vec<Frame>) -> (r: Result<Option<u128>, CommandError>)
    ensures
        r == expiry_spec(views(a@)),
{
    if a.len() != 5 {
        return Ok(None);
    }
    let unit = match text_arg_bytes(a, 3) {
        None => {
            return Err(CommandError::WrongArgument(CommandName::SetCmd));
        },
        Some(u) => u,
    };
    let is_ex = name_is(unit.as_slice(), "ex");
    let is_px = name_is(unit.as_slice(), "px");
    if !is_ex && !is_px {
        return Err(CommandError::InvalidExpiryUnit);
    }
    let mult: u128 = if is_ex {
        1000
    } else {
        1
    };
    let d = match text_arg_bytes(a, 4) {
        None => {
            return Err(CommandError::WrongArgument(CommandName::SetCmd));
        },
        Some(d) => d,
    };
    match get_u128(d.as_slice()) {
        None => Err(CommandError::InvalidNumber),
        Some(n) => match n.checked_mul(mult) {
            None => Err(CommandError::InvalidNumber),
            Some(ms) => Ok(Some(ms)),
        },
    }
}

fn parse_text_arg(a: &Vec<Frame>, i: usize, name: CommandName) -> (r: Result<String, CommandError>)
    ensures
        match text_arg(views(a@), i as int, name) {
            Ok(t) => r matches Ok(s) && s@ == t,
            Err(e) => r == Err::<String, CommandError>(e),
        },
{
    match bulk_arg(a, i) {
        None => Err(CommandError::WrongArgument(name)),
        Some(b) => match to_text(b) {
            Some(s) => Ok(s),
            None => Err(CommandError::InvalidUtf8),
        },
    }
}

fn parse_capabilities(a: &Vec<Frame>) -> (r: Result<Vec<String>, CommandError>)
    requires
        a@.len() >= 2,
    ensures
        match capabilities_spec(views(a@), 2) {
            Ok(c) => r matches Ok(v) && texts(v@) == c,
            Err(e) => r == Err::<Vec<String>, CommandError>(e),
        },
{
    let ghost av = views(a@);
    let mut caps: Vec<String> = Vec::new();
    let mut i: usize = 2;
    while i < a.len()
        invariant
            av == views(a@),
            2 <= i <= a@.len(),
            capabilities_spec(av, 2) == prepend_texts(texts(caps@), capabilities_spec(av, i as int)),
        decreases a.len() - i,
    {
        match bulk_arg(a, i) {
            None => {
                return Err(CommandError::WrongArgument(CommandName::ReplConf));
            },
            Some(b) => match to_text(b) {
                None => {
                    return Err(CommandError::InvalidUtf8);
                },
                Some(s) => {
                    let ghost before = texts(caps@);
                    let ghost t = s@;
                    caps.push(s);
                    assert(texts(caps@) =~= before.push(t));
                    proof {
                        let rest = capabilities_spec(av, i + 1);
                        if let Ok(r2) = rest {
                            assert(before + (seq![t] + r2) =~= before.push(t) + r2);
                        }
                    }
                },
            },
        }
        i = i + 1;
    }
    assert(texts(caps@) + Seq::<Seq<char>>::empty() =~= texts(caps@));
    Ok(caps)
}

/// Puts capabilities already read in front of what reading the rest gives.
pub open spec fn prepend_texts(
    t: Seq<Seq<char>>,
    r: Result<Seq<Seq<char>>, CommandError>,
) -> Result<Seq<Seq<char>>, CommandError> {
    match r {
        Ok(rest) => Ok(t + rest),
        Err(e) => Err(e),
    }
}

impl Command {
    /// Reads a command out of a frame.
    pub fn from_frame(frame: Frame) -> (r: Result<Command, CommandError>)
        ensures
            match command_spec(frame@) {
                Ok(c) => r matches Ok(x) && x@ == c,
                Err(e) => r == Err::<Command, CommandError>(e),
            },
    {
        let array = match frame {
            Frame::Array(array) => array,
            _ => {
                return Err(CommandError::NotAnArray);
            },
        };
        proof {
            lemma_array_view(array);
        }
        let ghost a = views(array@);
        let name = match bulk_arg(&array, 0) {
            None => {
                return Err(CommandError::NotAnArray);
            },
            Some(b) => b,
        };
        if to_text(name).is_none() {
            return Err(CommandError::InvalidUtf8);
        }
        let name = name.as_slice();
        if name_is(name, "ping") {
            Ok(Command::Ping(Ping::new()))
        } else if name_is(name, "command") {
            Ok(Command::CommandList(CommandList::new()))
        } else if name_is(name, "echo") {
            if array.len() != 2 {
                return Err(CommandError::WrongArgCount(CommandName::Echo));
            }
            match bulk_arg(&array, 1) {
                Some(b) => Ok(Command::Echo(Echo::new(copy_bytes(b.as_slice())))),
                None => Err(CommandError::WrongArgument(CommandName::Echo)),
            }
        } else if name_is(name, "get") {
            if array.len() != 2 {
                return Err(CommandError::WrongArgCount(CommandName::Get));
            }
            match parse_text_arg(&array, 1, CommandName::Get) {
                Ok(key) => Ok(Command::Get(Get::new(key))),
                Err(e) => Err(e),
            }
        } else if name_is(name, "set") {
            if array.len() != 3 && array.len() != 5 {
                return Err(CommandError::WrongArgCount(CommandName::SetCmd));
            }
            let (key, val) = match (bulk_arg(&array, 1), bulk_arg(&array, 2)) {
                (Some(k), Some(v)) => (k, v),
                _ => {
                    return Err(CommandError::WrongArgument(CommandName::SetCmd));
                },
            };
            let expiry = match parse_expiry(&array) {
                Ok(x) => x,
                Err(e) => {
                    return Err(e);
                },
            };
            match to_text(key) {
                Some(k) => Ok(
                    Command::SetCmd(SetCmd::new(k, copy_bytes(val.as_slice()), expiry)),
                ),
                None => Err(CommandError::InvalidUtf8),
            }
        } else if name_is(name, "info") {
            if array.len() != 2 {
                return Err(CommandError::WrongArgCount(CommandName::Info));
            }
            match parse_text_arg(&array, 1, CommandName::Info) {
                Ok(s) => Ok(Command::Info(Info::new(Some(s)))),
                Err(e) => Err(e),
            }
        } else if name_is(name, "replconf") {
            if array.len() < 3 {
                return Err(CommandError::WrongArgCount(CommandName::ReplConf));
            }
            let option = match bulk_arg(&array, 1) {
                None => {
                    return Err(CommandError::WrongArgument(CommandName::ReplConf));
                },
                Some(o) => o,
            };
            if to_text(option).is_none() {
                return Err(CommandError::InvalidUtf8);
            }
            if text_is(option.as_slice(), "listening-port") {
                match parse_text_arg(&array, 2, CommandName::ReplConf) {
                    Ok(p) => Ok(Command::ReplConf(ReplConf::new(ReplConfOption::ListeningPort(p)))),
                    Err(e) => Err(e),
                }
            } else if text_is(option.as_slice(), "capa") {
                match parse_capabilities(&array) {
                    Ok(c) => Ok(Command::ReplConf(ReplConf::new(ReplConfOption::Capabilities(c)))),
                    Err(e) => Err(e),
                }
            } else if text_is(option.as_slice(), "getack") {
                match parse_text_arg(&array, 2, CommandName::ReplConf) {
                    Ok(x) => Ok(Command::ReplConf(ReplConf::new(ReplConfOption::GetAck(x)))),
                    Err(e) => Err(e),
                }
            } else {
                Err(CommandError::WrongArgument(CommandName::ReplConf))
            }
        } else if name_is(name, "psync") {
            if array.len() != 3 {
                return Err(CommandError::WrongArgCount(CommandName::Psync));
            }
            let id = match parse_text_arg(&array, 1, CommandName::Psync) {
                Ok(id) => id,
                Err(e) => {
                    return Err(e);
                },
            };
            match bulk_arg(&array, 2) {
                None => Err(CommandError::WrongArgument(CommandName::Psync)),
                Some(o) => match get_integer(o.as_slice(), 0, o.len()) {
                    Some(n) => {
                        assert(o@.subrange(0, o@.len() as int) =~= o@);
                        Ok(Command::Psync(Psync::new(id, n)))
                    },
                    None => {
                        assert(o@.subrange(0, o@.len() as int) =~= o@);
                        Err(CommandError::InvalidNumber)
                    },
                },
            }
        } else {
            Ok(Command::Unknown(Unknown::new()))
        }
    }
}

// ----- What a command does -----

/// What running a command leaves to the connection task: replies for the
/// client, then frames for other peers, each with the peer's address.
pub struct Outcome {
    pub replies: Vec<Frame>,
    pub forwards: Vec<(String, Frame)>,
}

/// The addresses and frame values of forwarded frames.
pub open spec fn forward_views(v: Seq<(String, Frame)>) -> Seq<(Seq<char>, FrameV)> {
    Seq::new(v.len(), |i: int| (v[i].0@, v[i].1@))
}

/// An entry is live at `now` when it has no expiry or its expiry is later.
pub open spec fn is_live(e: EntryV, now: u128) -> bool {
    match e.1 {
        None => true,
        Some(t) => now < t,
    }
}

/// The absolute expiry for a duration starting at `now`; a deadline beyond
/// the range of `u128` is never reached.
pub open spec fn deadline(now: u128, duration: Option<u128>) -> Option<u128> {
    match duration {
        None => None,
        Some(d) => if now + d <= u128::MAX {
            Some((now + d) as u128)
        } else {
            None
        },
    }
}

/// `GET`: the keyspace afterwards and the reply. An expired entry is removed.
pub open spec fn get_spec(store: Map<Seq<char>, EntryV>, key: Seq<char>, now: u128) -> (
    Map<Seq<char>, EntryV>,
    FrameV,
) {
    if store.contains_key(key) {
        if is_live(store[key], now) {
            (store, FrameV::Bulk(Some(store[key].0)))
        } else {
            (store.remove(key), FrameV::Bulk(None))
        }
    } else {
        (store, FrameV::Bulk(None))
    }
}

pub open spec fn bulk_text(t: Seq<char>) -> FrameV {
    FrameV::Bulk(Some(encode_utf8(t)))
}

/// The frame that carries a write to the replicas.
pub open spec fn set_frame(key: Seq<char>, val: Seq<u8>) -> FrameV {
    FrameV::Array(seq![bulk_text("SET"@), bulk_text(key), FrameV::Bulk(Some(val))])
}

/// The same frame for each replica, in order.
pub open spec fn fanout(replicas: Seq<Seq<char>>, f: FrameV) -> Seq<(Seq<char>, FrameV)> {
    Seq::new(replicas.len(), |i: int| (replicas[i], f))
}

/// The ASCII digits of `n` as text.
pub open spec fn decimal_text(n: nat) -> Seq<char> {
    decimal(n).map_values(|b: u8| b as char)
}

/// The status line that starts a full resync.
pub open spec fn fullresync_text(info: ReplicationInfoV) -> Seq<char> {
    "FULLRESYNC "@ + info.master_replication_id + " "@ + decimal_text(info.master_repl_offset as nat)
}

/// `PSYNC`: the replication state afterwards and the replies.
pub open spec fn psync_apply_spec(id: Seq<char>, peer: Seq<char>, info: ReplicationInfoV) -> (
    ReplicationInfoV,
    Seq<FrameV>,
) {
    if info.role != "master"@ {
        (info, seq![FrameV::Error("ERR: Not a primary"@)])
    } else if id == info.master_replication_id {
        (info, seq![FrameV::Error("ERR: Partial resync not supported"@)])
    } else {
        (
            with_replica(info, peer),
            seq![FrameV::Simple(fullresync_text(info)), FrameV::File(EMPTY_RDB_FILE_BYTES@)],
        )
    }
}

/// `INFO`: the reply.
pub open spec fn info_apply_spec(section: Option<Seq<char>>, info: ReplicationInfoV) -> FrameV {
    match section {
        Some(s) if s != "replication"@ => FrameV::Error("ERR: Invalid section"@),
        _ => FrameV::Bulk(Some(info_text(info))),
    }
}

/// The acknowledgement a replica sends for `REPLCONF GETACK`.
pub open spec fn ack_frame() -> FrameV {
    FrameV::Array(seq![bulk_text("REPLCONF"@), bulk_text("ACK"@), bulk_text("0"@)])
}

/// `REPLCONF` on a primary: the reply.
pub open spec fn replconf_apply_spec(o: ReplConfOptionV) -> FrameV {
    match o {
        ReplConfOptionV::GetAck(_) => ack_frame(),
        _ => FrameV::Simple("OK"@),
    }
}

/// The effect of a command from the client at `peer`, at time `now`.
pub struct StepV {
    pub store: Map<Seq<char>, EntryV>,
    pub info: ReplicationInfoV,
    pub replies: Seq<FrameV>,
    pub forwards: Seq<(Seq<char>, FrameV)>,
}

/// What running a command does to the keyspace and the replication state, what
/// it replies, and what it sends on to other peers.
pub open spec fn apply_spec(
    c: CommandV,
    peer: Seq<char>,
    store: Map<Seq<char>, EntryV>,
    info: ReplicationInfoV,
    now: u128,
) -> StepV {
    let none = Seq::<(Seq<char>, FrameV)>::empty();
    match c {
        CommandV::Ping => StepV { store, info, replies: seq![FrameV::Simple("PONG"@)], forwards: none },
        CommandV::CommandList => StepV {
            store,
            info,
            replies: seq![FrameV::Array(Seq::empty())],
            forwards: none,
        },
        CommandV::Echo(b) => StepV { store, info, replies: seq![FrameV::Bulk(Some(b))], forwards: none },
        CommandV::Unknown => StepV {
            store,
            info,
            replies: seq![FrameV::Error("ERR: Command not supported"@)],
            forwards: none,
        },
        CommandV::SetCmd(k, v, d) => StepV {
            store: store.insert(k, (v, deadline(now, d))),
            info,
            replies: seq![FrameV::Simple("OK"@)],
            forwards: fanout(info.replicas, set_frame(k, v)),
        },
        CommandV::Get(k) => StepV {
            store: get_spec(store, k, now).0,
            info,
            replies: seq![get_spec(store, k, now).1],
            forwards: none,
        },
        CommandV::Info(s) => StepV { store, info, replies: seq![info_apply_spec(s, info)], forwards: none },
        CommandV::ReplConf(o) => StepV {
            store,
            info,
            replies: seq![replconf_apply_spec(o)],
            forwards: none,
        },
        CommandV::Psync(id, _) => StepV {
            store,
            info: psync_apply_spec(id, peer, info).0,
            replies: psync_apply_spec(id, peer, info).1,
            forwards: none,
        },
    }
}

/// A value written with a time to live of `d` milliseconds at `t0` is read
/// back at `t1` exactly when `t1 < t0 + d`; once it has expired, reading the
/// key again finds nothing.
pub proof fn law_ttl(
    peer: Seq<char>,
    store: Map<Seq<char>, EntryV>,
    info: ReplicationInfoV,
    k: Seq<char>,
    v: Seq<u8>,
    d: u128,
    t0: u128,
    t1: u128,
    t2: u128,
)
    ensures
        ({
            let set = apply_spec(CommandV::SetCmd(k, v, Some(d)), peer, store, info, t0);
            let get = apply_spec(CommandV::Get(k), peer, set.store, set.info, t1);
            let again = apply_spec(CommandV::Get(k), peer, get.store, get.info, t2);
            &&& get.replies == seq![
                if t1 < t0 + d {
                    FrameV::Bulk(Some(v))
                } else {
                    FrameV::Bulk(None)
                },
            ]
            &&& (t1 >= t0 + d ==> again.replies == seq![FrameV::Bulk(None)])
        }),
{
}

/// A write is answered with `+OK` whatever the keyspace and the replicas are;
/// the frames for the replicas are kept apart from that reply.
pub proof fn law_set_reply(
    peer: Seq<char>,
    store: Map<Seq<char>, EntryV>,
    info: ReplicationInfoV,
    k: Seq<char>,
    v: Seq<u8>,
    d: Option<u128>,
    now: u128,
)
    ensures
        apply_spec(CommandV::SetCmd(k, v, d), peer, store, info, now).replies == seq![FrameV::Simple("OK"@)],
        apply_spec(CommandV::SetCmd(k, v, d), peer, store, info, now).forwards == fanout(info.replicas, set_frame(k, v)),
{
}

/// After a primary grants a full resync to the peer at `p`, a later write from
/// any client is forwarded to `p`.
pub proof fn law_replica_registration(
    p: Seq<char>,
    id: Seq<char>,
    offset: i64,
    client: Seq<char>,
    store: Map<Seq<char>, EntryV>,
    info: ReplicationInfoV,
    k: Seq<char>,
    v: Seq<u8>,
    d: Option<u128>,
    t0: u128,
    t1: u128,
)
    requires
        info.role == "master"@,
        id != info.master_replication_id,
    ensures
        ({
            let psync = apply_spec(CommandV::Psync(id, offset), p, store, info, t0);
            let set = apply_spec(CommandV::SetCmd(k, v, d), client, psync.store, psync.info, t1);
            exists|i: int| 0 <= i < set.forwards.len() && set.forwards[i] == (p, set_frame(k, v))
        }),
{
    let psync = apply_spec(CommandV::Psync(id, offset), p, store, info, t0);
    let set = apply_spec(CommandV::SetCmd(k, v, d), client, psync.store, psync.info, t1);
    let i = info.replicas.len() as int;
    assert(psync.info.replicas == info.replicas.push(p));
    assert(set.forwards[i] == (p, set_frame(k, v)));
}

pub(crate) fn bulk_str(t: &str) -> (r: Frame)
    ensures
        r@ == bulk_text(t@),
{
    Frame::Bulk(Some(copy_bytes(t.as_bytes())))
}

fn simple(t: &str) -> (r: Frame)
    ensures
        r@ == FrameV::Simple(t@),
{
    Frame::Simple(t.to_string())
}

fn error(t: &str) -> (r: Frame)
    ensures
        r@ == FrameV::Error(t@),
{
    Frame::Error(t.to_string())
}

fn one(f: Frame) -> (r: Vec<Frame>)
    ensures
        views(r@) == seq![f@],
{
    let ghost fv = f@;
    let mut v: Vec<Frame> = Vec::new();
    v.push(f);
    assert(views(v@) =~= seq![fv]);
    v
}

/// The ASCII text of the digit `d`.
fn digit_str(d: u64) -> (r: &'static str)
    requires
        d < 10,
    ensures
        r@ == seq![((48 + d) as u8) as char],
{
    proof {
        reveal_strlit("0");
        reveal_strlit("1");
        reveal_strlit("2");
        reveal_strlit("3");
        reveal_strlit("4");
        reveal_strlit("5");
        reveal_strlit("6");
        reveal_strlit("7");
        reveal_strlit("8");
        reveal_strlit("9");
    }
    let r = if d == 0 {
        "0"
    } else if d == 1 {
        "1"
    } else if d == 2 {
        "2"
    } else if d == 3 {
        "3"
    } else if d == 4 {
        "4"
    } else if d == 5 {
        "5"
    } else if d == 6 {
        "6"
    } else if d == 7 {
        "7"
    } else if d == 8 {
        "8"
    } else {
        "9"
    };
    assert(r@ =~= seq![((48 + d) as u8) as char]);
    r
}

/// Appends the digits of `n` to `s`.
fn append_decimal(s: &mut String, n: u64)
    ensures
        final(s)@ == old(s)@ + decimal_text(n as nat),
    decreases n,
{
    if n < 10 {
        s.append(digit_str(n));
        assert(decimal_text(n as nat) =~= seq![((48 + n) as u8) as char]);
        assert(final(s)@ =~= old(s)@ + decimal_text(n as nat));
    } else {
        append_decimal(s, n / 10);
        s.append(digit_str(n % 10));
        assert(decimal_text(n as nat) =~= decimal_text((n / 10) as nat).push(((48 + n % 10) as u8) as char));
        assert(final(s)@ =~= old(s)@ + decimal_text(n as nat));
    }
}

impl Ping {
    pub fn new() -> Ping {
        Ping {  }
    }

    /// The reply `+PONG`.
    pub fn apply(&self) -> (r: Frame)
        ensures
            r@ == FrameV::Simple("PONG"@),
    {
        simple("PONG")
    }
}

impl Unknown {
    pub fn new() -> Unknown {
        Unknown {  }
    }

    /// An error reply; the connection goes on.
    pub fn apply(&self) -> (r: Frame)
        ensures
            r@ == FrameV::Error("ERR: Command not supported"@),
    {
        error("ERR: Command not supported")
    }
}

impl CommandList {
    pub fn new() -> CommandList {
        CommandList {  }
    }

    /// The reply: an empty array.
    pub fn apply(&self) -> (r: Frame)
        ensures
            r@ == FrameV::Array(Seq::empty()),
    {
        let items: Vec<Frame> = Vec::new();
        proof {
            lemma_array_view(items);
        }
        assert(views(items@) =~= Seq::<FrameV>::empty());
        Frame::Array(items)
    }
}

impl Echo {
    pub fn new(arg: Vec<u8>) -> (r: Echo)
        ensures
            r.arg == arg,
    {
        Echo { arg }
    }

    /// The reply: the argument as a bulk string.
    pub fn apply(&self) -> (r: Frame)
        ensures
            r@ == FrameV::Bulk(Some(self.arg@)),
    {
        Frame::Bulk(Some(copy_bytes(self.arg.as_slice())))
    }
}

impl SetCmd {
    pub fn new(key: String, val: Vec<u8>, expiry_duration_millis: Option<u128>) -> (r: SetCmd)
        ensures
            r.key == key,
            r.val == val,
            r.expiry_duration_millis == expiry_duration_millis,
    {
        SetCmd { key, val, expiry_duration_millis }
    }

    /// Stores the value, with its deadline counted from `now`.
    pub fn apply_replica(&self, state: &mut RedisState, now: u128)
        requires
            old(state).wf(),
        ensures
            final(state).wf(),
            final(state).store() == old(state).store().insert(
                self.key@,
                (self.val@, deadline(now, self.expiry_duration_millis)),
            ),
            final(state).info() == old(state).info(),
    {
        let expiry = match self.expiry_duration_millis {
            Some(duration) => now.checked_add(duration),
            None => None,
        };
        state.insert(self.key.clone(), copy_bytes(self.val.as_slice()), expiry);
    }

    /// Stores the value and replies `+OK`; the write goes on to every replica.
    pub fn apply(&self, state: &mut RedisState, now: u128) -> (r: Outcome)
        requires
            old(state).wf(),
        ensures
            final(state).wf(),
            final(state).store() == old(state).store().insert(
                self.key@,
                (self.val@, deadline(now, self.expiry_duration_millis)),
            ),
            final(state).info() == old(state).info(),
            views(r.replies@) == seq![FrameV::Simple("OK"@)],
            forward_views(r.forwards@) == fanout(old(state).info().replicas, set_frame(self.key@, self.val@)),
    {
        self.apply_replica(state, now);
        let replicas = state.get_replicas();
        let forwards = self.replicate(&replicas);
        Outcome { replies: one(simple("OK")), forwards }
    }

    /// The frame carrying this write, addressed to each replica.
    fn replicate(&self, replicas: &Vec<String>) -> (r: Vec<(String, Frame)>)
        ensures
            forward_views(r@) == fanout(texts(replicas@), set_frame(self.key@, self.val@)),
    {
        let ghost sf = set_frame(self.key@, self.val@);
        let mut out: Vec<(String, Frame)> = Vec::new();
        let mut k: usize = 0;
        while k < replicas.len()
            invariant
                k <= replicas@.len(),
                sf == set_frame(self.key@, self.val@),
                out@.len() == k,
                forall|i: int| 0 <= i < k ==> (#[trigger] out@[i]).0@ == replicas@[i]@ && out@[i].1@ == sf,
            decreases replicas.len() - k,
        {
            let frame = self.set_frame();
            out.push((replicas[k].clone(), frame));
            k = k + 1;
        }
        assert(forward_views(out@) =~= fanout(texts(replicas@), sf));
        out
    }

    /// `*3 SET key value`.
    fn set_frame(&self) -> (r: Frame)
        ensures
            r@ == set_frame(self.key@, self.val@),
    {
        let mut items: Vec<Frame> = Vec::new();
        items.push(bulk_str("SET"));
        items.push(bulk_str(self.key.as_str()));
        items.push(Frame::Bulk(Some(copy_bytes(self.val.as_slice()))));
        let ghost iv = views(items@);
        proof {
            lemma_array_view(items);
        }
        assert(iv =~= seq![bulk_text("SET"@), bulk_text(self.key@), FrameV::Bulk(Some(self.val@))]);
        Frame::Array(items)
    }
}

impl Get {
    pub fn new(key: String) -> (r: Get)
        ensures
            r.key == key,
    {
        Get { key }
    }

    /// The live value under the key, or a null bulk string; an expired entry
    /// is removed on the way.
    pub fn apply(&self, state: &mut RedisState, now: u128) -> (r: Frame)
        requires
            old(state).wf(),
        ensures
            final(state).wf(),
            final(state).store() == get_spec(old(state).store(), self.key@, now).0,
            r@ == get_spec(old(state).store(), self.key@, now).1,
            final(state).info() == old(state).info(),
    {
        let live = match state.get(&self.key) {
            Some(entry) => match entry.expiry {
                Some(ts) if ts <= now => None,
                _ => Some(copy_bytes(entry.value.as_slice())),
            },
            None => {
                return Frame::Bulk(None);
            },
        };
        match live {
            Some(v) => Frame::Bulk(Some(v)),
            None => {
                state.remove(&self.key);
                Frame::Bulk(None)
            },
        }
    }
}

impl Info {
    pub fn new(section: Option<String>) -> (r: Info)
        ensures
            r.section == section,
    {
        Info { section }
    }

    /// The replication section; any other section is an error.
    pub fn apply(&self, state: &RedisState) -> (r: Frame)
        ensures
            r@ == info_apply_spec(crate::replication::opt_text(self.section), state.info()),
    {
        let known = match &self.section {
            Some(section) => {
                let replication = "replication".to_string();
                *section == replication
            },
            None => true,
        };
        if known {
            Frame::Bulk(Some(state.get_replication_info().get_info_bytes()))
        } else {
            error("ERR: Invalid section")
        }
    }
}

impl ReplConf {
    pub fn new(option: ReplConfOption) -> (r: ReplConf)
        ensures
            r.option == option,
    {
        ReplConf { option }
    }

    /// On a primary: `+OK`, or the acknowledgement for `GETACK`.
    pub fn apply(&self) -> (r: Frame)
        ensures
            r@ == replconf_apply_spec(self.option@),
    {
        match &self.option {
            ReplConfOption::GetAck(_) => ack(),
            _ => simple("OK"),
        }
    }

    /// On a replica: the acknowledgement for `GETACK`; no other option is
    /// answered there.
    pub fn apply_replica(&self) -> (r: Option<Frame>)
        ensures
            self.option is GetAck ==> (r matches Some(f) && f@ == ack_frame()),
            !(self.option is GetAck) ==> r is None,
    {
        match &self.option {
            ReplConfOption::GetAck(_) => Some(ack()),
            _ => None,
        }
    }
}

/// `*3 REPLCONF ACK 0`.
fn ack() -> (r: Frame)
    ensures
        r@ == ack_frame(),
{
    let mut items: Vec<Frame> = Vec::new();
    items.push(bulk_str("REPLCONF"));
    items.push(bulk_str("ACK"));
    items.push(bulk_str("0"));
    let ghost iv = views(items@);
    proof {
        lemma_array_view(items);
    }
    assert(iv =~= seq![bulk_text("REPLCONF"@), bulk_text("ACK"@), bulk_text("0"@)]);
    Frame::Array(items)
}

impl Psync {
    pub fn new(replication_id: String, _replication_offset: i64) -> (r: Psync)
        ensures
            r.replication_id == replication_id,
            r._replication_offset == _replication_offset,
    {
        Psync { replication_id, _replication_offset }
    }

    /// A full resync for a peer that does not share our history: the
    /// `FULLRESYNC` line, the snapshot, and the peer recorded as a replica.
    pub fn apply(&self, peer: &String, state: &mut RedisState) -> (r: Vec<Frame>)
        requires
            old(state).wf(),
        ensures
            final(state).wf(),
            final(state).store() == old(state).store(),
            final(state).info() == psync_apply_spec(self.replication_id@, peer@, old(state).info()).0,
            views(r@) == psync_apply_spec(self.replication_id@, peer@, old(state).info()).1,
    {
        let info = state.get_replication_info();
        if !info.is_master() {
            return one(error("ERR: Not a primary"));
        }
        let id = info.get_replication_id();
        if id == self.replication_id {
            return one(error("ERR: Partial resync not supported"));
        }
        let mut line = "FULLRESYNC ".to_string();
        line.append(id.as_str());
        line.append(" ");
        append_decimal(&mut line, info.get_replication_offset());
        let mut replies: Vec<Frame> = Vec::new();
        replies.push(Frame::Simple(line));
        replies.push(Frame::File(copy_bytes(EMPTY_RDB_FILE_BYTES.as_slice())));
        state.add_replica(peer.clone());
        assert(views(replies@) =~= psync_apply_spec(self.replication_id@, peer@, old(state).info()).1);
        replies
    }
}

impl Command {
    /// Runs a command from the client at `peer`, at time `now`.
    pub fn apply(self, peer: &String, state: &mut RedisState, now: u128) -> (r: Outcome)
        requires
            old(state).wf(),
        ensures
            final(state).wf(),
            ({
                let step = apply_spec(self@, peer@, old(state).store(), old(state).info(), now);
                &&& final(state).store() == step.store
                &&& final(state).info() == step.info
                &&& views(r.replies@) == step.replies
                &&& forward_views(r.forwards@) == step.forwards
            }),
    {
        let none: Vec<(String, Frame)> = Vec::new();
        assert(forward_views(none@) =~= Seq::<(Seq<char>, FrameV)>::empty());
        match self {
            Command::Ping(cmd) => Outcome { replies: one(cmd.apply()), forwards: none },
            Command::CommandList(cmd) => Outcome { replies: one(cmd.apply()), forwards: none },
            Command::Echo(cmd) => Outcome { replies: one(cmd.apply()), forwards: none },
            Command::Unknown(cmd) => Outcome { replies: one(cmd.apply()), forwards: none },
            Command::SetCmd(cmd) => cmd.apply(state, now),
            Command::Get(cmd) => Outcome { replies: one(cmd.apply(state, now)), forwards: none },
            Command::Info(cmd) => Outcome { replies: one(cmd.apply(state)), forwards: none },
            Command::ReplConf(cmd) => Outcome { replies: one(cmd.apply()), forwards: none },
            Command::Psync(cmd) => Outcome { replies: cmd.apply(peer, state), forwards: none },
        }
    }
}

} // verus!
