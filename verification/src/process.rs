//! Positional decoding of process status lines.
//!
//! One line describes one process: its numeric id, the executable's name
//! in parentheses (which may itself contain spaces or parentheses), a
//! one-character state code, and a fixed tail of integer fields decoded
//! by position.

use vstd::prelude::*;

use crate::positional::{
    decode_positional, spec_decode_positional, spec_strict_signed, spec_strict_unsigned,
    parse_i64_strict, parse_u64_strict,
};
use crate::DecodeError;

verus! {

/// Number of positional fields that follow the parenthesized name: the
/// state code and the integer fields.
pub const STAT_FIELDS: usize = 50;

/// The scheduling state of a process, from its one-character code.
#[derive(Debug, Clone, Copy, PartialEq, Eq, Structural)]
pub enum State {
    /// Sleeping
    S,
    /// Idle
    I,
    /// Running
    R,
    /// Disk sleep
    D,
    /// Zombie (waiting for its parent to read its exit status)
    Z,
    /// Traced or suspended
    T,
    /// Paging
    W,
}

/// What the first character of a state field denotes; text after the
/// first character is ignored, and an empty field denotes nothing.
pub open spec fn spec_state_of(f: Seq<char>) -> Result<State, DecodeError> {
    if f.len() == 0 {
        Result::Err(DecodeError::GrammarMismatch)
    } else if f[0] == 'S' {
        Result::Ok(State::S)
    } else if f[0] == 'I' {
        Result::Ok(State::I)
    } else if f[0] == 'R' {
        Result::Ok(State::R)
    } else if f[0] == 'D' {
        Result::Ok(State::D)
    } else if f[0] == 'Z' {
        Result::Ok(State::Z)
    } else if f[0] == 'T' {
        Result::Ok(State::T)
    } else if f[0] == 'W' {
        Result::Ok(State::W)
    } else {
        Result::Err(DecodeError::GrammarMismatch)
    }
}

/// Decode a state field by its first character.
pub fn state_of(f: &str) -> (r: Result<State, DecodeError>)
    ensures
        r == spec_state_of(f@),
{
    if f.unicode_len() == 0 {
        return Err(DecodeError::GrammarMismatch);
    }
    match f.get_char(0) {
        'S' => Ok(State::S),
        'I' => Ok(State::I),
        'R' => Ok(State::R),
        'D' => Ok(State::D),
        'Z' => Ok(State::Z),
        'T' => Ok(State::T),
        'W' => Ok(State::W),
        _ => Err(DecodeError::GrammarMismatch),
    }
}

/// A strict unsigned field narrowed to 64 bits.
pub open spec fn spec_field_u64(f: Seq<char>) -> Result<u64, DecodeError> {
    match spec_strict_unsigned(f) {
        Option::Some(n) => if n <= u64::MAX {
            Result::Ok(n as u64)
        } else {
            Result::Err(DecodeError::ExpectedInteger)
        },
        Option::None => Result::Err(DecodeError::ExpectedInteger),
    }
}

/// A strict unsigned field narrowed to 32 bits.
pub open spec fn spec_field_u32(f: Seq<char>) -> Result<u32, DecodeError> {
    match spec_strict_unsigned(f) {
        Option::Some(n) => if n <= u32::MAX {
            Result::Ok(n as u32)
        } else {
            Result::Err(DecodeError::ExpectedInteger)
        },
        Option::None => Result::Err(DecodeError::ExpectedInteger),
    }
}

/// A strict signed field narrowed to 32 bits.
pub open spec fn spec_field_i32(f: Seq<char>) -> Result<i32, DecodeError> {
    match spec_strict_signed(f) {
        Option::Some(n) => if i32::MIN <= n <= i32::MAX {
            Result::Ok(n as i32)
        } else {
            Result::Err(DecodeError::ExpectedInteger)
        },
        Option::None => Result::Err(DecodeError::ExpectedInteger),
    }
}

/// Decode one unsigned 64-bit positional field.
pub fn field_u64(f: &str) -> (r: Result<u64, DecodeError>)
    ensures
        r == spec_field_u64(f@),
{
    parse_u64_strict(f)
}

/// Decode one unsigned 32-bit positional field.
pub fn field_u32(f: &str) -> (r: Result<u32, DecodeError>)
    ensures
        r == spec_field_u32(f@),
{
    match parse_u64_strict(f) {
        Ok(n) => if n <= u32::MAX as u64 {
            Ok(n as u32)
        } else {
            Err(DecodeError::ExpectedInteger)
        },
        Err(e) => Err(e),
    }
}

/// Decode one signed 32-bit positional field.
pub fn field_i32(f: &str) -> (r: Result<i32, DecodeError>)
    ensures
        r == spec_field_i32(f@),
{
    match parse_i64_strict(f) {
        Ok(n) => if i32::MIN as i64 <= n && n <= i32::MAX as i64 {
            Ok(n as i32)
        } else {
            Err(DecodeError::ExpectedInteger)
        },
        Err(e) => Err(e),
    }
}

/// The processes of a whole scan, one record each.
pub type Processes = Vec<Process>;

/// One process status record, decoded positionally from one line.
#[derive(Debug, Clone, PartialEq)]
pub struct Process {
    /// The owning user's name, when the caller looked it up.
    pub user_name: Option<String>,
    /// The process ID.
    pub pid: u32,
    /// The filename of the executable, from the parenthesized field. The
    /// kernel truncates long names silently; the field may contain spaces
    /// and parentheses, so its end is the last closing parenthesis of the
    /// line.
    pub command: String,
    /// The current state, from its one-character code.
    pub state: State,
    pub ppid: u32,
    pub pgrp: u32,
    pub session: u32,
    pub tty_nr: u32,
    pub tpgid: i32,
    pub flags: u32,
    pub minflit: u32,
    pub cminflit: u32,
    pub majflt: u32,
    pub cmajflt: u32,
    pub utime: u32,
    pub stime: u32,
    pub cutime: u32,
    pub cstime: u32,
    pub priority: i32,
    pub nice: i32,
    pub num_threads: i32,
    pub itrealvalue: i32,
    pub starttime: u64,
    pub vsize: u64,
    pub rss: i32,
    pub rsslim: u64,
    pub startcode: u64,
    pub encode: u64,
    pub startstack: u64,
    pub kstkep: u64,
    pub kstkeip: u64,
    pub signal: u64,
    pub blocked: u64,
    pub sigignore: u64,
    pub sigcatch: u64,
    pub wchan: u64,
    pub nswap: u64,
    pub cnswap: u64,
    pub exit_signal: i32,
    pub processor: i32,
    pub rt_priotiy: u32,
    pub policy: u32,
    pub delayacct_blkio_ticks: u64,
    pub guest_time: u64,
    pub cguest_time: u64,
    pub start_data: u64,
    pub end_data: u64,
    pub start_brk: u64,
    pub arg_start: u64,
    pub arg_end: u64,
    pub env_start: u64,
    pub env_end: u64,
    pub exit: i32,
}

impl Process {
    /// Decode one process status line. `name` is stored, never decoded:
    /// user identity comes from the caller.
    ///
    /// The line must carry exactly [`STAT_FIELDS`] fields after the
    /// parenthesized name, else the shape does not match; every integer
    /// field must be strict digits (with a sign where the field is
    /// signed) fitting its width.
    #[verifier::rlimit(100)]
    pub fn new(stat: &str, name: Option<String>) -> (r: Result<Process, DecodeError>)
        ensures
            match r {
                Ok(p) => {
                    let d = spec_decode_positional(stat@, STAT_FIELDS as int);
                    &&& d matches Ok(pr)
                    &&& d matches Ok(pr) ==> {
                        &&& p.user_name == name
                        &&& spec_field_u32(pr.key) == Result::<u32, DecodeError>::Ok(p.pid)
                        &&& p.command@ == pr.command
                        &&& spec_state_of(pr.fields[0]) == Result::<State, DecodeError>::Ok(p.state)
                    &&& spec_field_u32(pr.fields[1]) == Result::<u32, DecodeError>::Ok(p.ppid)
                    &&& spec_field_u32(pr.fields[2]) == Result::<u32, DecodeError>::Ok(p.pgrp)
                    &&& spec_field_u32(pr.fields[3]) == Result::<u32, DecodeError>::Ok(p.session)
                    &&& spec_field_u32(pr.fields[4]) == Result::<u32, DecodeError>::Ok(p.tty_nr)
                    &&& spec_field_i32(pr.fields[5]) == Result::<i32, DecodeError>::Ok(p.tpgid)
                    &&& spec_field_u32(pr.fields[6]) == Result::<u32, DecodeError>::Ok(p.flags)
                    &&& spec_field_u32(pr.fields[7]) == Result::<u32, DecodeError>::Ok(p.minflit)
                    &&& spec_field_u32(pr.fields[8]) == Result::<u32, DecodeError>::Ok(p.cminflit)
                    &&& spec_field_u32(pr.fields[9]) == Result::<u32, DecodeError>::Ok(p.majflt)
                    &&& spec_field_u32(pr.fields[10]) == Result::<u32, DecodeError>::Ok(p.cmajflt)
                    &&& spec_field_u32(pr.fields[11]) == Result::<u32, DecodeError>::Ok(p.utime)
                    &&& spec_field_u32(pr.fields[12]) == Result::<u32, DecodeError>::Ok(p.stime)
                    &&& spec_field_u32(pr.fields[13]) == Result::<u32, DecodeError>::Ok(p.cutime)
                    &&& spec_field_u32(pr.fields[14]) == Result::<u32, DecodeError>::Ok(p.cstime)
                    &&& spec_field_i32(pr.fields[15]) == Result::<i32, DecodeError>::Ok(p.priority)
                    &&& spec_field_i32(pr.fields[16]) == Result::<i32, DecodeError>::Ok(p.nice)
                    &&& spec_field_i32(pr.fields[17]) == Result::<i32, DecodeError>::Ok(p.num_threads)
                    &&& spec_field_i32(pr.fields[18]) == Result::<i32, DecodeError>::Ok(p.itrealvalue)
                    &&& spec_field_u64(pr.fields[19]) == Result::<u64, DecodeError>::Ok(p.starttime)
                    &&& spec_field_u64(pr.fields[20]) == Result::<u64, DecodeError>::Ok(p.vsize)
                    &&& spec_field_i32(pr.fields[21]) == Result::<i32, DecodeError>::Ok(p.rss)
                    &&& spec_field_u64(pr.fields[22]) == Result::<u64, DecodeError>::Ok(p.rsslim)
                    &&& spec_field_u64(pr.fields[23]) == Result::<u64, DecodeError>::Ok(p.startcode)
                    &&& spec_field_u64(pr.fields[24]) == Result::<u64, DecodeError>::Ok(p.encode)
                    &&& spec_field_u64(pr.fields[25]) == Result::<u64, DecodeError>::Ok(p.startstack)
                    &&& spec_field_u64(pr.fields[26]) == Result::<u64, DecodeError>::Ok(p.kstkep)
                    &&& spec_field_u64(pr.fields[27]) == Result::<u64, DecodeError>::Ok(p.kstkeip)
                    &&& spec_field_u64(pr.fields[28]) == Result::<u64, DecodeError>::Ok(p.signal)
                    &&& spec_field_u64(pr.fields[29]) == Result::<u64, DecodeError>::Ok(p.blocked)
                    &&& spec_field_u64(pr.fields[30]) == Result::<u64, DecodeError>::Ok(p.sigignore)
                    &&& spec_field_u64(pr.fields[31]) == Result::<u64, DecodeError>::Ok(p.sigcatch)
                    &&& spec_field_u64(pr.fields[32]) == Result::<u64, DecodeError>::Ok(p.wchan)
                    &&& spec_field_u64(pr.fields[33]) == Result::<u64, DecodeError>::Ok(p.nswap)
                    &&& spec_field_u64(pr.fields[34]) == Result::<u64, DecodeError>::Ok(p.cnswap)
                    &&& spec_field_i32(pr.fields[35]) == Result::<i32, DecodeError>::Ok(p.exit_signal)
                    &&& spec_field_i32(pr.fields[36]) == Result::<i32, DecodeError>::Ok(p.processor)
                    &&& spec_field_u32(pr.fields[37]) == Result::<u32, DecodeError>::Ok(p.rt_priotiy)
                    &&& spec_field_u32(pr.fields[38]) == Result::<u32, DecodeError>::Ok(p.policy)
                    &&& spec_field_u64(pr.fields[39]) == Result::<u64, DecodeError>::Ok(p.delayacct_blkio_ticks)
                    &&& spec_field_u64(pr.fields[40]) == Result::<u64, DecodeError>::Ok(p.guest_time)
                    &&& spec_field_u64(pr.fields[41]) == Result::<u64, DecodeError>::Ok(p.cguest_time)
                    &&& spec_field_u64(pr.fields[42]) == Result::<u64, DecodeError>::Ok(p.start_data)
                    &&& spec_field_u64(pr.fields[43]) == Result::<u64, DecodeError>::Ok(p.end_data)
                    &&& spec_field_u64(pr.fields[44]) == Result::<u64, DecodeError>::Ok(p.start_brk)
                    &&& spec_field_u64(pr.fields[45]) == Result::<u64, DecodeError>::Ok(p.arg_start)
                    &&& spec_field_u64(pr.fields[46]) == Result::<u64, DecodeError>::Ok(p.arg_end)
                    &&& spec_field_u64(pr.fields[47]) == Result::<u64, DecodeError>::Ok(p.env_start)
                    &&& spec_field_u64(pr.fields[48]) == Result::<u64, DecodeError>::Ok(p.env_end)
                    &&& spec_field_i32(pr.fields[49]) == Result::<i32, DecodeError>::Ok(p.exit)
                    }
                },
                Err(e) => match spec_decode_positional(stat@, STAT_FIELDS as int) {
                    Err(de) => e == de,
                    Ok(pr) => (e == DecodeError::ExpectedInteger || e == DecodeError::GrammarMismatch)
                        && !({
                        &&& spec_field_u32(pr.key) is Ok
                        &&& spec_state_of(pr.fields[0]) is Ok
                        &&& spec_field_u32(pr.fields[1]) is Ok
                        &&& spec_field_u32(pr.fields[2]) is Ok
                        &&& spec_field_u32(pr.fields[3]) is Ok
                        &&& spec_field_u32(pr.fields[4]) is Ok
                        &&& spec_field_i32(pr.fields[5]) is Ok
                        &&& spec_field_u32(pr.fields[6]) is Ok
                        &&& spec_field_u32(pr.fields[7]) is Ok
                        &&& spec_field_u32(pr.fields[8]) is Ok
                        &&& spec_field_u32(pr.fields[9]) is Ok
                        &&& spec_field_u32(pr.fields[10]) is Ok
                        &&& spec_field_u32(pr.fields[11]) is Ok
                        &&& spec_field_u32(pr.fields[12]) is Ok
                        &&& spec_field_u32(pr.fields[13]) is Ok
                        &&& spec_field_u32(pr.fields[14]) is Ok
                        &&& spec_field_i32(pr.fields[15]) is Ok
                        &&& spec_field_i32(pr.fields[16]) is Ok
                        &&& spec_field_i32(pr.fields[17]) is Ok
                        &&& spec_field_i32(pr.fields[18]) is Ok
                        &&& spec_field_u64(pr.fields[19]) is Ok
                        &&& spec_field_u64(pr.fields[20]) is Ok
                        &&& spec_field_i32(pr.fields[21]) is Ok
                        &&& spec_field_u64(pr.fields[22]) is Ok
                        &&& spec_field_u64(pr.fields[23]) is Ok
                        &&& spec_field_u64(pr.fields[24]) is Ok
                        &&& spec_field_u64(pr.fields[25]) is Ok
                        &&& spec_field_u64(pr.fields[26]) is Ok
                        &&& spec_field_u64(pr.fields[27]) is Ok
                        &&& spec_field_u64(pr.fields[28]) is Ok
                        &&& spec_field_u64(pr.fields[29]) is Ok
                        &&& spec_field_u64(pr.fields[30]) is Ok
                        &&& spec_field_u64(pr.fields[31]) is Ok
                        &&& spec_field_u64(pr.fields[32]) is Ok
                        &&& spec_field_u64(pr.fields[33]) is Ok
                        &&& spec_field_u64(pr.fields[34]) is Ok
                        &&& spec_field_i32(pr.fields[35]) is Ok
                        &&& spec_field_i32(pr.fields[36]) is Ok
                        &&& spec_field_u32(pr.fields[37]) is Ok
                        &&& spec_field_u32(pr.fields[38]) is Ok
                        &&& spec_field_u64(pr.fields[39]) is Ok
                        &&& spec_field_u64(pr.fields[40]) is Ok
                        &&& spec_field_u64(pr.fields[41]) is Ok
                        &&& spec_field_u64(pr.fields[42]) is Ok
                        &&& spec_field_u64(pr.fields[43]) is Ok
                        &&& spec_field_u64(pr.fields[44]) is Ok
                        &&& spec_field_u64(pr.fields[45]) is Ok
                        &&& spec_field_u64(pr.fields[46]) is Ok
                        &&& spec_field_u64(pr.fields[47]) is Ok
                        &&& spec_field_u64(pr.fields[48]) is Ok
                        &&& spec_field_i32(pr.fields[49]) is Ok
                    }),
                },
            },
    {
        let pr = match decode_positional(stat, STAT_FIELDS) {
            Ok(p) => p,
            Err(e) => return Err(e),
        };
        let pid = match field_u32(pr.key.as_str()) {
            Ok(v) => v,
            Err(e) => return Err(e),
        };
        let state = match state_of(pr.fields[0].as_str()) {
            Ok(v) => v,
            Err(e) => return Err(e),
        };
        let ppid = match field_u32(pr.fields[1].as_str()) {
            Ok(v) => v,
            Err(e) => return Err(e),
        };
        let pgrp = match field_u32(pr.fields[2].as_str()) {
            Ok(v) => v,
            Err(e) => return Err(e),
        };
        let session = match field_u32(pr.fields[3].as_str()) {
            Ok(v) => v,
            Err(e) => return Err(e),
        };
        let tty_nr = match field_u32(pr.fields[4].as_str()) {
            Ok(v) => v,
            Err(e) => return Err(e),
        };
        let tpgid = match field_i32(pr.fields[5].as_str()) {
            Ok(v) => v,
            Err(e) => return Err(e),
        };
        let flags = match field_u32(pr.fields[6].as_str()) {
            Ok(v) => v,
            Err(e) => return Err(e),
        };
        let minflit = match field_u32(pr.fields[7].as_str()) {
            Ok(v) => v,
            Err(e) => return Err(e),
        };
        let cminflit = match field_u32(pr.fields[8].as_str()) {
            Ok(v) => v,
            Err(e) => return Err(e),
        };
        let majflt = match field_u32(pr.fields[9].as_str()) {
            Ok(v) => v,
            Err(e) => return Err(e),
        };
        let cmajflt = match field_u32(pr.fields[10].as_str()) {
            Ok(v) => v,
            Err(e) => return Err(e),
        };
        let utime = match field_u32(pr.fields[11].as_str()) {
            Ok(v) => v,
            Err(e) => return Err(e),
        };
        let stime = match field_u32(pr.fields[12].as_str()) {
            Ok(v) => v,
            Err(e) => return Err(e),
        };
        let cutime = match field_u32(pr.fields[13].as_str()) {
            Ok(v) => v,
            Err(e) => return Err(e),
        };
        let cstime = match field_u32(pr.fields[14].as_str()) {
            Ok(v) => v,
            Err(e) => return Err(e),
        };
        let priority = match field_i32(pr.fields[15].as_str()) {
            Ok(v) => v,
            Err(e) => return Err(e),
        };
        let nice = match field_i32(pr.fields[16].as_str()) {
            Ok(v) => v,
            Err(e) => return Err(e),
        };
        let num_threads = match field_i32(pr.fields[17].as_str()) {
            Ok(v) => v,
            Err(e) => return Err(e),
        };
        let itrealvalue = match field_i32(pr.fields[18].as_str()) {
            Ok(v) => v,
            Err(e) => return Err(e),
        };
        let starttime = match field_u64(pr.fields[19].as_str()) {
            Ok(v) => v,
            Err(e) => return Err(e),
        };
        let vsize = match field_u64(pr.fields[20].as_str()) {
            Ok(v) => v,
            Err(e) => return Err(e),
        };
        let rss = match field_i32(pr.fields[21].as_str()) {
            Ok(v) => v,
            Err(e) => return Err(e),
        };
        let rsslim = match field_u64(pr.fields[22].as_str()) {
            Ok(v) => v,
            Err(e) => return Err(e),
        };
        let startcode = match field_u64(pr.fields[23].as_str()) {
            Ok(v) => v,
            Err(e) => return Err(e),
        };
        let encode = match field_u64(pr.fields[24].as_str()) {
            Ok(v) => v,
            Err(e) => return Err(e),
        };
        let startstack = match field_u64(pr.fields[25].as_str()) {
            Ok(v) => v,
            Err(e) => return Err(e),
        };
        let kstkep = match field_u64(pr.fields[26].as_str()) {
            Ok(v) => v,
            Err(e) => return Err(e),
        };
        let kstkeip = match field_u64(pr.fields[27].as_str()) {
            Ok(v) => v,
            Err(e) => return Err(e),
        };
        let signal = match field_u64(pr.fields[28].as_str()) {
            Ok(v) => v,
            Err(e) => return Err(e),
        };
        let blocked = match field_u64(pr.fields[29].as_str()) {
            Ok(v) => v,
            Err(e) => return Err(e),
        };
        let sigignore = match field_u64(pr.fields[30].as_str()) {
            Ok(v) => v,
            Err(e) => return Err(e),
        };
        let sigcatch = match field_u64(pr.fields[31].as_str()) {
            Ok(v) => v,
            Err(e) => return Err(e),
        };
        let wchan = match field_u64(pr.fields[32].as_str()) {
            Ok(v) => v,
            Err(e) => return Err(e),
        };
        let nswap = match field_u64(pr.fields[33].as_str()) {
            Ok(v) => v,
            Err(e) => return Err(e),
        };
        let cnswap = match field_u64(pr.fields[34].as_str()) {
            Ok(v) => v,
            Err(e) => return Err(e),
        };
        let exit_signal = match field_i32(pr.fields[35].as_str()) {
            Ok(v) => v,
            Err(e) => return Err(e),
        };
        let processor = match field_i32(pr.fields[36].as_str()) {
            Ok(v) => v,
            Err(e) => return Err(e),
        };
        let rt_priotiy = match field_u32(pr.fields[37].as_str()) {
            Ok(v) => v,
            Err(e) => return Err(e),
        };
        let policy = match field_u32(pr.fields[38].as_str()) {
            Ok(v) => v,
            Err(e) => return Err(e),
        };
        let delayacct_blkio_ticks = match field_u64(pr.fields[39].as_str()) {
            Ok(v) => v,
            Err(e) => return Err(e),
        };
        let guest_time = match field_u64(pr.fields[40].as_str()) {
            Ok(v) => v,
            Err(e) => return Err(e),
        };
        let cguest_time = match field_u64(pr.fields[41].as_str()) {
            Ok(v) => v,
            Err(e) => return Err(e),
        };
        let start_data = match field_u64(pr.fields[42].as_str()) {
            Ok(v) => v,
            Err(e) => return Err(e),
        };
        let end_data = match field_u64(pr.fields[43].as_str()) {
            Ok(v) => v,
            Err(e) => return Err(e),
        };
        let start_brk = match field_u64(pr.fields[44].as_str()) {
            Ok(v) => v,
            Err(e) => return Err(e),
        };
        let arg_start = match field_u64(pr.fields[45].as_str()) {
            Ok(v) => v,
            Err(e) => return Err(e),
        };
        let arg_end = match field_u64(pr.fields[46].as_str()) {
            Ok(v) => v,
            Err(e) => return Err(e),
        };
        let env_start = match field_u64(pr.fields[47].as_str()) {
            Ok(v) => v,
            Err(e) => return Err(e),
        };
        let env_end = match field_u64(pr.fields[48].as_str()) {
            Ok(v) => v,
            Err(e) => return Err(e),
        };
        let exit_code = match field_i32(pr.fields[49].as_str()) {
            Ok(v) => v,
            Err(e) => return Err(e),
        };
        Ok(Process {
            user_name: name,
            pid,
            command: pr.command,
            state,
            ppid,
            pgrp,
            session,
            tty_nr,
            tpgid,
            flags,
            minflit,
            cminflit,
            majflt,
            cmajflt,
            utime,
            stime,
            cutime,
            cstime,
            priority,
            nice,
            num_threads,
            itrealvalue,
            starttime,
            vsize,
            rss,
            rsslim,
            startcode,
            encode,
            startstack,
            kstkep,
            kstkeip,
            signal,
            blocked,
            sigignore,
            sigcatch,
            wchan,
            nswap,
            cnswap,
            exit_signal,
            processor,
            rt_priotiy,
            policy,
            delayacct_blkio_ticks,
            guest_time,
            cguest_time,
            start_data,
            end_data,
            start_brk,
            arg_start,
            arg_end,
            env_start,
            env_end,
            exit: exit_code,
        })
    }
}

} // verus!
