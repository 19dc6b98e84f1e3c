//! Run-state tracking via a PID file.
//!
//! A PID file whose process is checked to be alive cannot mistake the shell
//! that asks for the program it asks about, and correctly reports "not running"
//! for a stale file left by a crash.

use crate::paths::{self, join_of, with_extension_of};
use crate::platform::Platform;
use crate::text::{self, all_digits, decimal, is_digit, opt_view, texts, trim_of, value_of};
use vstd::prelude::*;

verus! {

/// Where the PID file lives. The runtime directory is preferred because it is
/// cleared on logout, so a stale file cannot survive a reboot.
pub open spec fn pid_path(
    runtime: Option<Seq<char>>,
    temp: Seq<char>,
    here: Platform,
    name: Seq<char>,
) -> Seq<char> {
    if here == Platform::Windows {
        join_of(temp, name, here)
    } else {
        match runtime {
            Some(d) => join_of(d, name, here),
            None => join_of("/tmp"@, name, here),
        }
    }
}

fn place(runtime: &Option<String>, temp: &str, here: Platform, name: &str) -> (r: String)
    ensures
        r@ == pid_path(opt_view(*runtime), temp@, here, name@),
{
    if here == Platform::Windows {
        return paths::join(temp, name, here);
    }
    match runtime {
        Some(d) => paths::join(d.as_str(), name, here),
        None => paths::join("/tmp", name, here),
    }
}

/// Where the PID file of the command-line program lives.
pub fn default_pid_path(runtime: &Option<String>, temp: &str, here: Platform) -> (r: String)
    ensures
        r@ == pid_path(opt_view(*runtime), temp@, here, "syrinx.pid"@),
{
    place(runtime, temp, here, "syrinx.pid")
}

/// Where the PID file of the headless typer lives.
pub fn typer_pid_path(runtime: &Option<String>, temp: &str, here: Platform) -> (r: String)
    ensures
        r@ == pid_path(opt_view(*runtime), temp@, here, "parakeet.pid"@),
{
    place(runtime, temp, here, "parakeet.pid")
}

/// The number a PID file holds, if it holds one: an optional sign and digits,
/// within the range of a process id.
pub open spec fn number_of(s: Seq<char>) -> Option<int> {
    let signed = s.len() > 0 && (s[0] == '-' || s[0] == '+');
    let digits = if signed {
        s.skip(1)
    } else {
        s
    };
    let v = if s.len() > 0 && s[0] == '-' {
        -(value_of(digits) as int)
    } else {
        value_of(digits) as int
    };
    if digits.len() > 0 && all_digits(digits) && i32::MIN <= v <= i32::MAX {
        Some(v)
    } else {
        None
    }
}

proof fn lemma_value_grows(s: Seq<char>, i: int)
    requires
        all_digits(s),
        0 <= i <= s.len(),
    ensures
        value_of(s.take(i)) <= value_of(s),
    decreases s.len() - i,
{
    if i < s.len() {
        lemma_value_grows(s, i + 1);
        assert(s.take(i + 1).drop_last() == s.take(i));
        assert(is_digit(s[i]));
    } else {
        assert(s.take(i) == s);
    }
}

/// The process id a PID file holds. A file that is garbage or empty holds none.
pub fn parse_pid(raw: &str) -> (r: Option<i32>)
    ensures
        match r {
            Some(n) => number_of(trim_of(raw@)) == Some(n as int),
            None => number_of(trim_of(raw@)) is None,
        },
{
    let t = text::trim(raw);
    let v = text::chars_of(t.as_str());
    let negative: bool = v.len() > 0 && v[0] == '-';
    let signed: bool = negative || (v.len() > 0 && v[0] == '+');
    let start: usize = if signed {
        1
    } else {
        0
    };
    let ghost digits = v@.skip(start as int);
    assert(v@.skip(0) == v@);
    if v.len() == start {
        return None;
    }
    let mut n: i64 = 0;
    let mut i: usize = start;
    assert(digits.take(0) == Seq::<char>::empty());
    while i < v.len()
        invariant
            start <= i <= v@.len(),
            start < v@.len(),
            digits == v@.skip(start as int),
            0 <= n <= 2147483648,
            n == value_of(digits.take(i - start)),
            forall|j: int| 0 <= j < i - start ==> is_digit(#[trigger] digits[j]),
            v@ == trim_of(raw@),
            negative == (v@.len() > 0 && v@[0] == '-'),
            start == (if v@.len() > 0 && (v@[0] == '-' || v@[0] == '+') {
                1int
            } else {
                0int
            }),
        decreases v@.len() - i,
    {
        let c = v[i];
        assert(digits[i - start] == c);
        if !('0' <= c && c <= '9') {
            assert(v@.skip(0) == v@);
            return None;
        }
        assert(digits.take(i - start + 1).drop_last() == digits.take(i - start));
        n = n * 10 + (c as i64 - 0x30);
        if n > 2147483648 {
            proof {
                assert(v@.skip(0) == v@);
                if all_digits(digits) {
                    lemma_value_grows(digits, i - start + 1);
                }
            }
            return None;
        }
        i += 1;
    }
    assert(digits.take(i - start) == digits);
    assert(v@.skip(0) == v@);
    if negative {
        Some((-n) as i32)
    } else if n <= 2147483647 {
        Some(n as i32)
    } else {
        None
    }
}

/// Whether an instance is running: the PID file's process, as long as it is
/// alive.
pub fn running_pid(pid: Option<i32>, alive: bool) -> (r: Option<i32>)
    ensures
        r == (if alive {
            pid
        } else {
            None
        }),
{
    if alive {
        pid
    } else {
        None
    }
}

/// What a PID file holds for a process.
pub open spec fn pid_text_of(pid: int) -> Seq<char> {
    if pid < 0 {
        "-"@ + decimal((-pid) as nat)
    } else {
        decimal(pid as nat)
    }
}

pub fn pid_text(pid: i32) -> (r: String)
    ensures
        r@ == pid_text_of(pid as int),
{
    if pid < 0 {
        let mut s = "-".to_owned();
        let d = text::decimal_text((-(pid as i64)) as u64);
        s.append(d.as_str());
        s
    } else {
        text::decimal_text(pid as u64)
    }
}

proof fn lemma_digits_are_dark(s: Seq<char>)
    requires
        all_digits(s),
    ensures
        trim_of(s) == s,
{
    if s.len() > 0 {
        assert(is_digit(s[0]));
        assert(is_digit(s[s.len() - 1]));
    }
    assert(text::trim_start_of(s) == s);
    assert(text::trim_end_of(s) == s);
}

/// Reading a PID file gives back the process it was written for.
pub proof fn lemma_pid_round_trip(pid: int)
    requires
        i32::MIN <= pid <= i32::MAX,
    ensures
        number_of(trim_of(pid_text_of(pid))) == Some(pid),
{
    reveal_strlit("-");
    let n = if pid < 0 {
        (-pid) as nat
    } else {
        pid as nat
    };
    text::lemma_decimal_round_trip(n);
    let d = decimal(n);
    assert(is_digit(d[0]));
    assert(is_digit(d[d.len() - 1]));
    if pid < 0 {
        let s = pid_text_of(pid);
        assert(s[0] == '-');
        assert(s.last() == d[d.len() - 1]);
        assert(text::trim_start_of(s) == s);
        assert(text::trim_end_of(s) == s);
        assert(s.skip(1) == d);
    } else {
        lemma_digits_are_dark(d);
    }
}

/// Where a stop request is left for a running instance to find.
pub fn stop_request_path(pid_path: &str, here: Platform) -> (r: String)
    ensures
        r@ == with_extension_of(pid_path@, "stop"@, here),
{
    paths::with_extension(pid_path, "stop", here)
}

/// How a running instance is asked to stop.
pub enum StopBy {
    /// Send its process SIGTERM.
    Signal(i32),
    /// Write `stop` to this file.
    Request(String),
}

/// Ask a running instance to stop. It finishes the current utterance and exits.
///
/// Windows has nothing like SIGTERM that gives a session the chance to flush
/// its last words, so a request file is left beside the PID file there and the
/// running instance watches for it.
pub fn signal_stop(pid: i32, pid_path: &str, here: Platform) -> (r: StopBy)
    ensures
        if here == Platform::Windows {
            r matches StopBy::Request(p) && p@ == with_extension_of(pid_path@, "stop"@, here)
        } else {
            r == StopBy::Signal(pid)
        },
{
    if here == Platform::Windows {
        StopBy::Request(stop_request_path(pid_path, here))
    } else {
        StopBy::Signal(pid)
    }
}

/// The arguments `pkill` is given to make waybar re-run its module at once.
///
/// `-x` matches the process name exactly, never the command line that asks.
pub fn refresh_waybar(signal: u8, here: Platform) -> (r: Option<Vec<String>>)
    ensures
        match r {
            Some(args) => here == Platform::Linux && texts(args@) == seq![
                "-RTMIN+"@ + decimal(signal as nat),
                "-x"@,
                "waybar"@,
            ],
            None => here != Platform::Linux,
        },
{
    if here != Platform::Linux {
        return None;
    }
    let mut v: Vec<String> = Vec::new();
    let mut s = "-RTMIN+".to_owned();
    let n = text::decimal_text(signal as u64);
    s.append(n.as_str());
    v.push(s);
    v.push("-x".to_owned());
    v.push("waybar".to_owned());
    assert(texts(v@) =~= seq!["-RTMIN+"@ + decimal(signal as nat), "-x"@, "waybar"@]);
    Some(v)
}

/// The PID file is in the temporary directory on Windows, and elsewhere in the
/// runtime directory, or under `/tmp` where there is none.
pub proof fn lemma_where_the_pid_file_is(
    runtime: Option<Seq<char>>,
    temp: Seq<char>,
    here: Platform,
    name: Seq<char>,
)
    ensures
        here == Platform::Windows ==> pid_path(runtime, temp, here, name) == join_of(
            temp,
            name,
            here,
        ),
        here != Platform::Windows && runtime is None ==> pid_path(runtime, temp, here, name)
            == join_of("/tmp"@, name, here),
        here != Platform::Windows ==> (runtime matches Some(d) ==> pid_path(
            runtime,
            temp,
            here,
            name,
        ) == join_of(d, name, here)),
{
}

/// A PID file holds a number if and only if it is digits, with a sign in front
/// or none, whose value fits: a plus changes nothing and a minus negates.
pub proof fn lemma_a_pid_is_a_sign_and_digits(digits: Seq<char>)
    requires
        digits.len() > 0,
        all_digits(digits),
    ensures
        value_of(digits) <= i32::MAX ==> number_of(digits) == Some(value_of(digits) as int),
        value_of(digits) <= i32::MAX ==> number_of(seq!['+'] + digits) == Some(
            value_of(digits) as int,
        ),
        value_of(digits) <= i32::MAX + 1 ==> number_of(seq!['-'] + digits) == Some(
            -(value_of(digits) as int),
        ),
        value_of(digits) > i32::MAX ==> number_of(digits) is None && number_of(
            seq!['+'] + digits,
        ) is None,
        value_of(digits) > i32::MAX + 1 ==> number_of(seq!['-'] + digits) is None,
{
    assert(is_digit(digits[0]));
    assert((seq!['+'] + digits).skip(1) =~= digits);
    assert((seq!['-'] + digits).skip(1) =~= digits);
}

/// Anything but a sign and digits holds no process.
pub proof fn lemma_garbage_is_no_pid(s: Seq<char>, i: int)
    requires
        0 <= i < s.len(),
        !('0' <= s[i] <= '9'),
        i > 0 || (s[i] != '-' && s[i] != '+'),
    ensures
        number_of(s) is None,
        number_of(Seq::empty()) is None,
{
    if s[0] == '-' || s[0] == '+' {
        assert(s.skip(1)[i - 1] == s[i]);
    }
}

} // verus!
