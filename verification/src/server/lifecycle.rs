//! Model lifecycle: lazy load, idle unload, and the VRAM tenancy guard.
//!
//! The server is the lowest-priority GPU tenant on its host and must actively
//! yield: its neighbours fail visibly when starved. Refusing to load is correct
//! behaviour here, not a failure.

use crate::audio::mixer::since;
use crate::text::{self, all_digits, decimal, opt_view, split_of, trim_of, value_of};
use vstd::prelude::*;

verus! {

/// Enforces that loading a model leaves at least a floor free for other tenants
/// on the GPU.
#[derive(Debug, Clone, Copy, PartialEq, Eq, Structural)]
pub struct VramGuard {
    floor_mib: u64,
}

impl VramGuard {
    pub closed spec fn floor(self) -> u64 {
        self.floor_mib
    }

    pub fn new(floor_mib: u64) -> (r: VramGuard)
        ensures
            r.floor() == floor_mib,
    {
        VramGuard { floor_mib }
    }

    pub open spec fn leaves_room(self, model_mib: u64, free_mib: u64) -> bool {
        free_mib > model_mib + self.floor()
    }

    /// Whether a model of `model_mib` may be loaded given `free_mib` available.
    ///
    /// Strictly greater-than: landing exactly on the floor leaves a neighbour
    /// with nothing to grow into.
    pub fn can_load(&self, model_mib: u64, free_mib: u64) -> (r: bool)
        requires
            model_mib + self.floor() <= u64::MAX,
        ensures
            r == self.leaves_room(model_mib, free_mib),
    {
        free_mib > model_mib + self.floor_mib
    }

    pub fn floor_mib(&self) -> (r: u64)
        ensures
            r == self.floor(),
    {
        self.floor_mib
    }
}

/// Reports free GPU memory.
pub trait VramProbe {
    /// Whether the probe may be asked.
    spec fn may_ask(&self) -> bool;

    /// Whether the probe may report `free`.
    spec fn may_report(&self, free: Option<u64>) -> bool;

    /// Free VRAM in MiB, or `None` when there is no GPU to speak of.
    fn free_mib(&self) -> (r: Option<u64>)
        requires
            self.may_ask(),
        ensures
            self.may_report(r),
    ;
}

/// The arguments `nvidia-smi` is asked for free memory with.
pub const NVIDIA_SMI_ARGS: [&'static str; 2] = [
    "--query-gpu=memory.free",
    "--format=csv,noheader,nounits",
];

/// The number a text is: digits after an optional plus sign, within range.
pub open spec fn unsigned_of(s: Seq<char>) -> Option<nat> {
    let digits = if s.len() > 0 && s[0] == '+' {
        s.skip(1)
    } else {
        s
    };
    if digits.len() > 0 && all_digits(digits) && value_of(digits) <= u64::MAX {
        Some(value_of(digits))
    } else {
        None
    }
}

proof fn lemma_value_grows(s: Seq<char>, i: int)
    requires
        0 <= i <= s.len(),
        all_digits(s),
    ensures
        value_of(s.take(i)) <= value_of(s),
    decreases s.len() - i,
{
    if i < s.len() {
        lemma_value_grows(s, i + 1);
        assert(s.take(i + 1).drop_last() == s.take(i));
    } else {
        assert(s.take(i) == s);
    }
}

/// The number a text is.
pub fn parse_unsigned(s: &str) -> (r: Option<u64>)
    ensures
        match r {
            Some(n) => unsigned_of(s@) == Some(n as nat),
            None => unsigned_of(s@) is None,
        },
{
    let v = text::chars_of(s);
    let start: usize = if v.len() > 0 && v[0] == '+' {
        1
    } else {
        0
    };
    let ghost digits = v@.skip(start as int);
    assert(start == 0 ==> digits == v@);
    if start == v.len() {
        return None;
    }
    let mut n: u64 = 0;
    let mut i: usize = start;
    assert(digits.take(0).len() == 0);
    while i < v.len()
        invariant
            start <= i <= v@.len(),
            v@ == s@,
            start == (if s@.len() > 0 && s@[0] == '+' {
                1int
            } else {
                0
            }),
            digits == (if start == 1 {
                s@.skip(1)
            } else {
                s@
            }),
            n == value_of(digits.take(i - start)),
            forall|j: int| 0 <= j < i - start ==> text::is_digit(#[trigger] digits[j]),
        decreases v@.len() - i,
    {
        let c = v[i];
        let ghost at = i - start;
        assert(digits[at] == c);
        if !('0' <= c && c <= '9') {
            assert(!all_digits(digits)) by {
                assert(!text::is_digit(digits[at]));
            }
            return None;
        }
        assert(digits.take(at + 1).drop_last() == digits.take(at));
        assert(digits.take(at + 1).last() == c);
        let d: u64 = (c as u32 - '0' as u32) as u64;
        assert(value_of(digits.take(at + 1)) == n * 10 + d);
        if n > (u64::MAX - d) / 10 {
            proof {
                if all_digits(digits) {
                    lemma_value_grows(digits, at + 1);
                }
                assert(n * 10 + d > u64::MAX);
            }
            return None;
        }
        n = n * 10 + d;
        i += 1;
    }
    assert(digits.take(i - start) == digits);
    Some(n)
}

/// The memory `nvidia-smi` printed on its first line, if it printed any.
pub open spec fn reported(printed: Seq<char>) -> Option<nat> {
    if printed.len() == 0 {
        None
    } else {
        unsigned_of(trim_of(split_of(printed, '\n')[0]))
    }
}

/// What `nvidia-smi` printed, if it could be run. Anything that does not read as
/// a number is treated as "no GPU" rather than as an error.
pub struct NvidiaSmiProbe {
    pub printed: Option<String>,
}

impl VramProbe for NvidiaSmiProbe {
    open spec fn may_ask(&self) -> bool {
        true
    }

    open spec fn may_report(&self, free: Option<u64>) -> bool {
        match (opt_view(self.printed), free) {
            (Some(p), Some(n)) => reported(p) == Some(n as nat),
            (Some(p), None) => reported(p) is None,
            (None, f) => f is None,
        }
    }

    fn free_mib(&self) -> (r: Option<u64>) {
        match &self.printed {
            Some(p) => {
                let chars = text::chars_of(p.as_str());
                if chars.len() == 0 {
                    return None;
                }
                let lines = text::split(p.as_str(), '\n');
                proof {
                    text::lemma_split_nonempty(p@, '\n');
                    assert(text::texts(lines@)[0] == lines@[0]@);
                }
                let first = text::trim(lines[0].as_str());
                parse_unsigned(first.as_str())
            },
            None => None,
        }
    }
}

/// Always reports the same figure.
pub struct FixedVramProbe(pub Option<u64>);

impl VramProbe for FixedVramProbe {
    open spec fn may_ask(&self) -> bool {
        true
    }

    open spec fn may_report(&self, free: Option<u64>) -> bool {
        free == self.0
    }

    fn free_mib(&self) -> (r: Option<u64>) {
        self.0
    }
}

/// Why a model could not be provided.
///
/// The distinction matters to clients: `Capacity` depends on what the GPU's
/// other tenants are doing right now and is worth retrying, whereas `Failed`
/// will fail identically forever.
#[derive(Debug, PartialEq, Eq)]
pub enum LoadError {
    /// Loading now would starve another GPU tenant. Transient.
    Capacity(String),
    /// The model could not be loaded at all. Permanent until fixed.
    Failed(String),
}

impl LoadError {
    pub fn is_retryable(&self) -> (r: bool)
        ensures
            r == (self is Capacity),
    {
        matches!(self, LoadError::Capacity(_))
    }

    pub fn message(&self) -> (r: String)
        ensures
            r@ == (match *self {
                LoadError::Capacity(m) => m@,
                LoadError::Failed(e) => e@,
            }),
    {
        match self {
            LoadError::Capacity(m) => m.clone(),
            LoadError::Failed(e) => e.clone(),
        }
    }
}

/// Why a model is not loaded when too little memory is free.
pub open spec fn refusal_of(free: u64, model_mib: u64, floor: u64) -> Seq<char> {
    "refusing to load: "@ + decimal(free as nat) + " MiB free, need "@ + decimal(model_mib as nat)
        + " MiB for the model plus a "@ + decimal(floor as nat)
        + " MiB floor reserved for other GPU tenants"@
}

fn refusal(free: u64, model_mib: u64, floor: u64) -> (r: String)
    ensures
        r@ == refusal_of(free, model_mib, floor),
{
    let mut s = "refusing to load: ".to_owned();
    let a = text::decimal_text(free);
    s.append(a.as_str());
    s.append(" MiB free, need ");
    let b = text::decimal_text(model_mib);
    s.append(b.as_str());
    s.append(" MiB for the model plus a ");
    let c = text::decimal_text(floor);
    s.append(c.as_str());
    s.append(" MiB floor reserved for other GPU tenants");
    s
}

/// Loads a model on demand and drops it once idle.
///
/// The server should hold zero VRAM for most of the day: a dictation session is
/// seconds of work in an otherwise quiet 24 hours. Times are in nanoseconds.
pub struct ModelHandle<B, P: VramProbe> {
    loaded: Option<B>,
    last_used: u64,
    guard: VramGuard,
    probe: P,
    /// Expected footprint, used for the check before loading.
    model_mib: u64,
    idle_unload: u64,
}

impl<B, P: VramProbe> ModelHandle<B, P> {
    pub closed spec fn model(self) -> Option<B> {
        self.loaded
    }

    pub closed spec fn used_at(self) -> u64 {
        self.last_used
    }

    /// The guard, the probe, the footprint and the idle window.
    pub closed spec fn settings(self) -> (VramGuard, P, u64, u64) {
        (self.guard, self.probe, self.model_mib, self.idle_unload)
    }

    /// Whether the model may be loaded when this much memory is reported free.
    pub open spec fn admits(self, free: Option<u64>) -> bool {
        free matches Some(n) ==> self.settings().0.leaves_room(self.settings().2, n)
    }

    pub fn new(guard: VramGuard, probe: P, model_mib: u64, idle_unload: u64, now: u64) -> (r:
        ModelHandle<B, P>)
        ensures
            r.model() is None,
            r.used_at() == now,
            r.settings() == (guard, probe, model_mib, idle_unload),
    {
        ModelHandle { loaded: None, last_used: now, guard, probe, model_mib, idle_unload }
    }

    /// Return the loaded model, loading it with `load` if necessary.
    ///
    /// Fails with a capacity error when loading would leave too little VRAM for
    /// other tenants; `load` is not called then. Where the probe reports no GPU
    /// there is no shared memory to protect.
    ///
    /// A model that is held is handed back as it is: one load serves any number
    /// of uses. What is asked of `load` and of the probe is asked only where no
    /// model is held, and of `load` only where the probe may report enough room,
    /// so neither can be called anywhere else.
    pub fn get_or_load<F: FnOnce() -> Result<B, String>>(&mut self, load: F, now: u64) -> (r: Result<
        &B,
        LoadError,
    >)
        requires
            old(self).model() is None ==> old(self).settings().1.may_ask(),
            (old(self).model() is None && exists|free: Option<u64>|
                #[trigger] old(self).settings().1.may_report(free) && old(self).admits(free))
                ==> load.requires(()),
            old(self).settings().2 + old(self).settings().0.floor() <= u64::MAX,
        ensures
            final(self).settings() == old(self).settings(),
            final(self).used_at() == now,
            old(self).model() is Some ==> r is Ok && final(self).model() == old(self).model(),
            r matches Ok(b) ==> final(self).model() == Some(*b),
            r is Err ==> final(self).model() is None,
            old(self).model() is None ==> exists|free: Option<u64>|
                #[trigger] old(self).settings().1.may_report(free) && match r {
                    Err(LoadError::Capacity(m)) => !old(self).admits(free) && m@ == refusal_of(
                        free->0,
                        old(self).settings().2,
                        old(self).settings().0.floor(),
                    ),
                    Err(LoadError::Failed(e)) => old(self).admits(free) && load.ensures(
                        (),
                        Err(e),
                    ),
                    Ok(b) => old(self).admits(free) && load.ensures((), Ok(*b)),
                },
    {
        self.last_used = now;
        if self.loaded.is_none() {
            let free = self.probe.free_mib();
            assert(old(self).settings().1.may_report(free));
            if let Some(n) = free {
                if !self.guard.can_load(self.model_mib, n) {
                    return Err(
                        LoadError::Capacity(refusal(n, self.model_mib, self.guard.floor_mib())),
                    );
                }
            }
            match load() {
                Ok(b) => {
                    self.loaded = Some(b);
                },
                Err(e) => {
                    return Err(LoadError::Failed(e));
                },
            }
        }
        Ok(self.loaded.as_ref().unwrap())
    }

    /// Drop the model if it has been idle at least as long as the configured
    /// window. Returns whether it unloaded.
    pub fn unload_if_idle(&mut self, now: u64) -> (r: bool)
        ensures
            r == (old(self).model() is Some && since(now, old(self).used_at()) >= old(
                self,
            ).settings().3),
            final(self).model() == (if r {
                None
            } else {
                old(self).model()
            }),
            final(self).used_at() == old(self).used_at(),
            final(self).settings() == old(self).settings(),
    {
        let idle: u64 = now.saturating_sub(self.last_used);
        if idle < self.idle_unload {
            return false;
        }
        if self.loaded.is_some() {
            self.loaded = None;
            return true;
        }
        false
    }

    pub fn is_loaded(&self) -> (r: bool)
        ensures
            r == self.model() is Some,
    {
        self.loaded.is_some()
    }
}

/// A guard that lets a model load leaves more than its floor free.
pub proof fn lemma_loading_leaves_the_floor(guard: VramGuard, model_mib: u64, free_mib: u64)
    requires
        guard.leaves_room(model_mib, free_mib),
    ensures
        free_mib - model_mib > guard.floor(),
{
}

/// A model may be loaded exactly when more than the floor stays free beside it.
pub proof fn lemma_a_model_loads_only_above_the_floor(
    guard: VramGuard,
    model_mib: u64,
    free_mib: u64,
)
    ensures
        guard.leaves_room(model_mib, free_mib) <==> free_mib - model_mib > guard.floor(),
{
}

/// Whether a model is admitted depends on what is reported free, on its size and
/// on the floor; where no GPU reports, there is nothing to protect.
pub proof fn lemma_what_admits_a_model<B, P: VramProbe>(h: ModelHandle<B, P>, free: u64)
    ensures
        h.admits(None),
        h.admits(Some(free)) <==> free > h.settings().2 + h.settings().0.floor(),
{
}

/// Every number a machine can hold reads back from its digits, with a plus sign
/// or without.
pub proof fn lemma_a_number_reads_back(n: u64)
    ensures
        unsigned_of(decimal(n as nat)) == Some(n as nat),
        unsigned_of("+"@ + decimal(n as nat)) == Some(n as nat),
{
    reveal_strlit("+");
    text::lemma_decimal_round_trip(n as nat);
    let d = decimal(n as nat);
    assert(text::is_digit(d[0]));
    assert(("+"@ + d).skip(1) =~= d);
}

/// Nothing but digits, at most one plus sign before them, reads as a number.
pub proof fn lemma_only_digits_are_a_number(s: Seq<char>, i: int)
    requires
        0 <= i < s.len(),
        !text::is_digit(s[i]),
        i > 0 || s[0] != '+',
    ensures
        unsigned_of(s) is None,
        unsigned_of(Seq::empty()) is None,
{
    if s[0] == '+' {
        assert(s.skip(1)[i - 1] == s[i]);
    }
}

/// What is reported free is the number on the first line, whatever follows it
/// and however it is padded.
pub proof fn lemma_the_first_line_is_reported(n: u64, rest: Seq<char>)
    ensures
        reported(decimal(n as nat)) == Some(n as nat),
        reported(decimal(n as nat).push('\n') + rest) == Some(n as nat),
{
    let d = decimal(n as nat);
    text::lemma_decimal_round_trip(n as nat);
    lemma_a_number_reads_back(n);
    assert(!d.contains('\n')) by {
        if d.contains('\n') {
            let i = choose|i: int| 0 <= i < d.len() && d[i] == '\n';
            assert(text::is_digit(d[i]));
        }
    }
    text::lemma_split_of_one(d, '\n');
    lemma_first_piece(d, rest);
    assert(trim_of(d) == d) by {
        assert(text::is_digit(d[0]) && text::is_digit(d[d.len() - 1]));
        assert(text::trim_start_of(d) == d);
        assert(text::trim_end_of(d) == d);
    }
}

proof fn lemma_first_piece(d: Seq<char>, rest: Seq<char>)
    requires
        !d.contains('\n'),
    ensures
        split_of(d.push('\n') + rest, '\n').len() > 1,
        split_of(d.push('\n') + rest, '\n')[0] == d,
    decreases rest.len(),
{
    let s = d.push('\n') + rest;
    if rest.len() == 0 {
        text::lemma_split_of_one(d, '\n');
        assert(s.drop_last() =~= d);
    } else {
        assert(s.drop_last() =~= d.push('\n') + rest.drop_last());
        lemma_first_piece(d, rest.drop_last());
    }
}

/// A refusal says what is free, what the model needs and what is held back.
pub proof fn lemma_a_refusal_says_why(free: u64, model_mib: u64, floor: u64)
    ensures
        text::occurs_in(decimal(free as nat), refusal_of(free, model_mib, floor)),
        text::occurs_in(decimal(model_mib as nat), refusal_of(free, model_mib, floor)),
        text::occurs_in(decimal(floor as nat), refusal_of(free, model_mib, floor)),
{
    let r = refusal_of(free, model_mib, floor);
    let (a, b, c) = (decimal(free as nat), decimal(model_mib as nat), decimal(floor as nat));
    let i: int = "refusing to load: "@.len() as int;
    assert(r.subrange(i, i + a.len()) =~= a);
    let j: int = i + a.len() + " MiB free, need "@.len();
    assert(r.subrange(j, j + b.len()) =~= b);
    let k: int = j + b.len() + " MiB for the model plus a "@.len();
    assert(r.subrange(k, k + c.len()) =~= c);
}

/// A probe reports what it was given: a fixed one its number, and one that read
/// a tool's output the number that output begins with, or none.
pub proof fn lemma_a_probe_reports_what_it_was_given(
    fixed: FixedVramProbe,
    tool: NvidiaSmiProbe,
    free: Option<u64>,
)
    ensures
        fixed.may_ask(),
        tool.may_ask(),
        fixed.may_report(free) <==> free == fixed.0,
        tool.printed is None ==> (tool.may_report(free) <==> free is None),
        tool.printed matches Some(p) ==> (tool.may_report(free) <==> match free {
            Some(n) => reported(p@) == Some(n as nat),
            None => reported(p@) is None,
        }),
{
}

} // verus!
