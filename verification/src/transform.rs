//! The decisions of the trace transformer: how resolved symbols are named,
//! how instruction and branch samples move the call stack, and how exported
//! traces are numbered.
use vstd::prelude::*;

use crate::analysis::filter::{regex_matches, Target};
use crate::text::{decimal, hex, push_decimal, push_hex};
use crate::trace::metrics::Metrics;
use crate::trace::event::Event;
use crate::trace::{SymbolInfo, TraceError};
use std::collections::HashMap;

verus! {

/// Creates a symbol for a frame whose symbol information isn't known.
/// Unknown frames can be recognized by checking .offset == 0
pub fn fallback_symbol() -> (r: SymbolInfo)
    ensures
        r.name@ == "[unknown]"@,
        r.offset == 0,
        r.size == 0,
{
    SymbolInfo { name: String::from_str("[unknown]"), offset: 0, size: 0 }
}

/// The symbol a resolver found: its name and the range `[start, end)`.
pub fn resolved_symbol(name: String, start: u64, end: u64) -> (r: SymbolInfo)
    requires
        start <= end,
    ensures
        r.name@ == name@,
        r.offset == start,
        r.size == end - start,
{
    SymbolInfo { name, offset: start, size: end - start }
}

/// What the symbol resolver reports for an address: the symbol's name (`None`
/// when it is not valid UTF-8) and its range `[start, end)`.
pub struct RawSymbol {
    pub name: Option<String>,
    pub start: u64,
    pub end: u64,
}

/// The name under which a resolved symbol is kept.
pub open spec fn raw_symbol_name(name: Option<String>) -> Seq<char> {
    match name {
        Some(n) => n@,
        None => "Non UTF-8 symbol"@,
    }
}

/// The symbol of a sampled address. The resolver is asked only when the
/// sample says the address correlates with a symbol (`correlates`); `raw` is
/// what it answered, `None` when it found no symbol. Without an answer the
/// address gets the `[ 0x<addr> ]` placeholder.
pub fn symbol_for_address(correlates: bool, raw: Option<RawSymbol>, addr: u64) -> (r: SymbolInfo)
    requires
        correlates ==> (raw matches Some(s) ==> s.start <= s.end),
    ensures
        match raw {
            Some(s) if correlates => {
                &&& r.name@ == raw_symbol_name(s.name)
                &&& r.offset == s.start
                &&& r.size == s.end - s.start
            },
            _ => {
                &&& r.name@ == "[ 0x"@ + hex(addr as nat) + " ]"@
                &&& r.offset == 0
                &&& r.size == 0
            },
        },
{
    if correlates {
        if let Some(s) = raw {
            let name = match s.name {
                Some(n) => n,
                None => String::from_str("Non UTF-8 symbol"),
            };
            return resolved_symbol(name, s.start, s.end);
        }
    }
    unresolved_symbol(addr)
}

/// The placeholder for an address no symbol covers: named `[ 0x<addr> ]`.
pub fn unresolved_symbol(addr: u64) -> (r: SymbolInfo)
    ensures
        r.name@ == "[ 0x"@ + hex(addr as nat) + " ]"@,
        r.offset == 0,
        r.size == 0,
{
    let mut name = String::from_str("[ 0x");
    push_hex(&mut name, addr);
    name.append(" ]");
    SymbolInfo { name, offset: 0, size: 0 }
}

/// The first level, from `from` up, whose symbol covers `addr`.
pub open spec fn first_covering(callstack: Seq<SymbolInfo>, addr: u64, from: int) -> Option<int>
    decreases callstack.len() - from,
{
    if from < 0 || from >= callstack.len() {
        None
    } else if symbol_covers(callstack[from], addr) {
        Some(from)
    } else {
        first_covering(callstack, addr, from + 1)
    }
}

/// The first level above the current frame (level 0) whose symbol covers `addr`.
pub open spec fn callstack_level(callstack: Seq<SymbolInfo>, addr: u64) -> Option<int> {
    first_covering(callstack, addr, 1)
}

pub open spec fn symbol_covers(s: SymbolInfo, addr: u64) -> bool {
    s.offset <= addr && addr < s.offset + s.size
}

/// Returns how many frames up the callstack the address is contained in, or
/// None if it's not contained in any frame. `callstack[i]` is the symbol of
/// the frame `i` levels up; level 0 (the current frame) is not considered.
pub fn contained_in_callstack(callstack: &[SymbolInfo], addr: u64) -> (r: Option<usize>)
    ensures
        r matches Some(i) ==> callstack_level(callstack@, addr) == Some(i as int),
        r is None ==> callstack_level(callstack@, addr) is None,
{
    let n = callstack.len();
    let mut i: usize = 1;
    while i < n
        invariant
            n == callstack@.len(),
            1 <= i,
            callstack_level(callstack@, addr) == first_covering(callstack@, addr, i as int),
        decreases n - i,
    {
        if callstack[i].contains(addr) {
            return Some(i);
        }
        i += 1;
    }
    None
}

/// Running instruction and cycle counts of the decoded execution.
pub struct Counters {
    pub insn_cnt: u64,
    pub cyc_cnt: u64,
}

impl Counters {
    pub fn new() -> (r: Self)
        ensures
            r.insn_cnt == 0,
            r.cyc_cnt == 0,
    {
        Counters { insn_cnt: 0, cyc_cnt: 0 }
    }

    /// An instruction sample: one more instruction, and the cycles it reports.
    pub fn count_instruction(&mut self, cyc_cnt: u64)
        requires
            old(self).insn_cnt < u64::MAX,
            old(self).cyc_cnt + cyc_cnt <= u64::MAX,
        ensures
            final(self).insn_cnt == old(self).insn_cnt + 1,
            final(self).cyc_cnt == old(self).cyc_cnt + cyc_cnt,
    {
        self.insn_cnt = self.insn_cnt + 1;
        self.cyc_cnt = self.cyc_cnt + cyc_cnt;
    }

    /// The current point of execution at the given time.
    pub fn metrics_at(&self, time: u64) -> (r: Metrics)
        ensures
            r == (Metrics { ts: time, cycles: self.cyc_cnt, insn_count: self.insn_cnt }),
    {
        Metrics { ts: time, cycles: self.cyc_cnt, insn_count: self.insn_cnt }
    }
}

/// An instruction whose address lies outside the current (known) frame's
/// symbol points at a bug in the call/return tracking.
pub fn ip_outside_current_frame(current: &SymbolInfo, ip: u64) -> (r: bool)
    ensures
        r == (current.offset != 0 && !symbol_covers(*current, ip)),
{
    current.offset != 0 && !current.contains(ip)
}

/// What a branch sample does to the call stack of its thread.
#[derive(Debug, Clone, Copy, PartialEq, Eq, Structural)]
pub enum BranchAction {
    /// Nothing changes.
    Ignore,
    /// Complete this many frames.
    Return(usize),
    /// Complete two frames, then push a frame for the target.
    ReturnTwiceThenCall,
    /// Push a frame for the target.
    Call,
    /// Start a new trace at the target; it registers
    /// `data_collection_error_event()` before anything else.
    StartTrace,
}

/// The event a new trace registers first, under which it records
/// data-collection errors.
pub fn data_collection_error_event() -> (r: Event)
    ensures
        r.spec_id() == TraceError::DataCollectionError.spec_id(),
        r.spec_name() == "Errors"@,
        r.spec_description() == "Trace decoder hit an error. Callstacks may be corrupted."@,
        r.spec_occurences() == Seq::<Metrics>::empty(),
        r.wf(),
{
    Event::new(
        TraceError::DataCollectionError.id(),
        String::from_str("Errors"),
        String::from_str("Trace decoder hit an error. Callstacks may be corrupted."),
    )
}

/// How a branch sample is handled: whether a data-collection error is
/// recorded (an instruction pointer of zero), the stack action, and the
/// remaining limit on new traces.
#[derive(Debug, Clone, Copy, PartialEq, Eq, Structural)]
pub struct BranchDecision {
    pub record_error: bool,
    pub action: BranchAction,
    pub traces_limit: Option<u32>,
}

/// The branch decision table. `callstack` is `None` when the thread has no
/// trace in progress, otherwise the symbols of its frames, current first.
/// Unknown frames (offset 0) are popped as soon as a branch lands in a known
/// symbol: a return to the level that holds it, or two returns and a call.
/// A branch that leaves a known frame is a call when flagged as one or when
/// it lands in no frame of the stack, otherwise a return to that frame (a
/// flagged return from the last frame finishes the trace).
pub open spec fn branch_decision(
    callstack: Option<Seq<SymbolInfo>>,
    target: SymbolInfo,
    addr: u64,
    ip: u64,
    is_call: bool,
    is_return: bool,
    pattern: Seq<char>,
    traces_limit: Option<u32>,
) -> BranchDecision {
    match callstack {
        Some(stack) => {
            let current = stack[0];
            let action = if current.offset == 0 {
                if target.offset != 0 {
                    match callstack_level(stack, addr) {
                        Some(levels) => BranchAction::Return(levels as usize),
                        None => BranchAction::ReturnTwiceThenCall,
                    }
                } else {
                    BranchAction::Ignore
                }
            } else if !symbol_covers(current, addr) {
                let returning = match callstack_level(stack, addr) {
                    Some(levels) => Some(levels),
                    None => if is_return && stack.len() == 1 {
                        Some(1int)
                    } else {
                        None
                    },
                };
                if is_call || returning is None {
                    BranchAction::Call
                } else {
                    BranchAction::Return(returning->0 as usize)
                }
            } else {
                BranchAction::Ignore
            };
            BranchDecision { record_error: ip == 0, action, traces_limit }
        },
        None => {
            if target.offset != 0 && regex_matches(pattern, target.name@) && (traces_limit is None
                || traces_limit->0 > 0) {
                BranchDecision {
                    record_error: false,
                    action: BranchAction::StartTrace,
                    traces_limit: match traces_limit {
                        Some(l) => Some((l - 1) as u32),
                        None => None,
                    },
                }
            } else {
                BranchDecision { record_error: false, action: BranchAction::Ignore, traces_limit }
            }
        },
    }
}

/// Decides how a branch sample is handled (see `branch_decision`).
pub fn decide_branch(
    callstack: Option<&[SymbolInfo]>,
    target: &SymbolInfo,
    addr: u64,
    ip: u64,
    is_call: bool,
    is_return: bool,
    sym_target: &Target,
    traces_limit: Option<u32>,
) -> (r: BranchDecision)
    requires
        callstack matches Some(stack) ==> stack@.len() >= 1,
    ensures
        r == branch_decision(
            match callstack {
                Some(stack) => Some(stack@),
                None => None,
            },
            *target,
            addr,
            ip,
            is_call,
            is_return,
            sym_target.spec_pattern(),
            traces_limit,
        ),
{
    match callstack {
        Some(stack) => {
            let current = &stack[0];
            let action = if current.offset == 0 {
                if target.offset != 0 {
                    match contained_in_callstack(stack, addr) {
                        Some(levels) => BranchAction::Return(levels),
                        None => BranchAction::ReturnTwiceThenCall,
                    }
                } else {
                    BranchAction::Ignore
                }
            } else if !current.contains(addr) {
                let returning = match contained_in_callstack(stack, addr) {
                    Some(levels) => Some(levels),
                    None => if is_return && stack.len() == 1 {
                        Some(1usize)
                    } else {
                        None
                    },
                };
                match returning {
                    Some(levels) => if is_call {
                        BranchAction::Call
                    } else {
                        BranchAction::Return(levels)
                    },
                    None => BranchAction::Call,
                }
            } else {
                BranchAction::Ignore
            };
            BranchDecision { record_error: ip == 0, action, traces_limit }
        },
        None => {
            let limit_allows = match traces_limit {
                Some(l) => l > 0,
                None => true,
            };
            if target.offset != 0 && sym_target.is_match(target.name.as_str()) && limit_allows {
                let remaining = match traces_limit {
                    Some(l) => Some(l - 1),
                    None => None,
                };
                BranchDecision { record_error: false, action: BranchAction::StartTrace, traces_limit: remaining }
            } else {
                BranchDecision { record_error: false, action: BranchAction::Ignore, traces_limit }
            }
        },
    }
}

/// A branch from a known frame to an address it does not cover, not flagged
/// as a call, returns to the nearest level above that covers the address:
/// it completes exactly as many frames as that level lies up the stack. A
/// branch from an unknown frame to a known symbol does the same. A trace in
/// progress keeps its limit, and records an error exactly when the
/// instruction pointer is zero.
pub proof fn lemma_return_to_covering_level(
    stack: Seq<SymbolInfo>,
    target: SymbolInfo,
    addr: u64,
    ip: u64,
    is_call: bool,
    is_return: bool,
    pattern: Seq<char>,
    traces_limit: Option<u32>,
    level: int,
)
    requires
        1 <= level < stack.len() <= usize::MAX,
        stack[level].offset <= addr < stack[level].offset + stack[level].size,
        forall|j: int|
            1 <= j < level ==> !((#[trigger] stack[j]).offset <= addr && addr < stack[j].offset + stack[j].size),
    ensures
        ({
            let d = branch_decision(Some(stack), target, addr, ip, is_call, is_return, pattern, traces_limit);
            &&& (stack[0].offset != 0 && !(stack[0].offset <= addr && addr < stack[0].offset + stack[0].size)
                && !is_call) ==> d.action == BranchAction::Return(level as usize)
            &&& (stack[0].offset == 0 && target.offset != 0) ==> d.action == BranchAction::Return(level as usize)
            &&& d.record_error == (ip == 0)
            &&& d.traces_limit == traces_limit
        }),
{
    lemma_callstack_level(stack, addr);
}

/// A branch from a known frame to an address it does not cover is a call
/// when flagged as one, or when no level above covers the address (but for a
/// flagged return from the only frame, which completes that frame). A branch
/// that stays inside the current known frame changes nothing, and so does a
/// branch from an unknown frame to another unknown symbol.
pub proof fn lemma_calls_and_stays(
    stack: Seq<SymbolInfo>,
    target: SymbolInfo,
    addr: u64,
    ip: u64,
    is_call: bool,
    is_return: bool,
    pattern: Seq<char>,
    traces_limit: Option<u32>,
)
    requires
        1 <= stack.len() <= usize::MAX,
    ensures
        ({
            let d = branch_decision(Some(stack), target, addr, ip, is_call, is_return, pattern, traces_limit);
            let cur = stack[0];
            let leaves = !(cur.offset <= addr && addr < cur.offset + cur.size);
            let nowhere_above = forall|j: int|
                1 <= j < stack.len() ==> !((#[trigger] stack[j]).offset <= addr && addr < stack[j].offset
                    + stack[j].size);
            &&& (cur.offset != 0 && leaves && is_call) ==> d.action == BranchAction::Call
            &&& (cur.offset != 0 && leaves && nowhere_above) ==> d.action == (if !is_call && is_return
                && stack.len() == 1 {
                BranchAction::Return(1)
            } else {
                BranchAction::Call
            })
            &&& (cur.offset != 0 && !leaves) ==> d.action == BranchAction::Ignore
            &&& (cur.offset == 0 && target.offset == 0) ==> d.action == BranchAction::Ignore
            &&& (cur.offset == 0 && target.offset != 0 && nowhere_above) ==> d.action
                == BranchAction::ReturnTwiceThenCall
        }),
{
    lemma_callstack_level(stack, addr);
    let cur = stack[0];
    if cur.offset != 0 && !(cur.offset <= addr && addr < cur.offset + cur.size) {
        if forall|j: int|
            1 <= j < stack.len() ==> !((#[trigger] stack[j]).offset <= addr && addr < stack[j].offset
                + stack[j].size) {
            assert(callstack_level(stack, addr) is None) by {
                if callstack_level(stack, addr) is Some {
                    let i = callstack_level(stack, addr)->0;
                    assert(stack[i].offset <= addr && addr < stack[i].offset + stack[i].size);
                }
            }
        }
    }
    if cur.offset == 0 && target.offset != 0 {
        if forall|j: int|
            1 <= j < stack.len() ==> !((#[trigger] stack[j]).offset <= addr && addr < stack[j].offset
                + stack[j].size) {
            assert(callstack_level(stack, addr) is None) by {
                if callstack_level(stack, addr) is Some {
                    let i = callstack_level(stack, addr)->0;
                    assert(stack[i].offset <= addr && addr < stack[i].offset + stack[i].size);
                }
            }
        }
    }
}

/// Without a trace in progress, a branch starts one exactly when its target
/// is a known symbol whose name the pattern matches and the limit is not
/// used up; starting takes one from the limit, and no error is recorded.
pub proof fn lemma_start_trace(
    target: SymbolInfo,
    addr: u64,
    ip: u64,
    is_call: bool,
    is_return: bool,
    pattern: Seq<char>,
    traces_limit: Option<u32>,
)
    ensures
        ({
            let d = branch_decision(None, target, addr, ip, is_call, is_return, pattern, traces_limit);
            let starts = target.offset != 0 && regex_matches(pattern, target.name@) && (
            traces_limit matches Some(l) ==> l > 0);
            &&& starts ==> d.action == BranchAction::StartTrace
            &&& !starts ==> d.action == BranchAction::Ignore
            &&& !d.record_error
            &&& traces_limit matches Some(l) ==> d.traces_limit == Some(
                (if starts {
                    l - 1
                } else {
                    l as int
                }) as u32,
            )
            &&& traces_limit is None ==> d.traces_limit is None
        }),
{
}

/// The stack left when `k` frames are completed; completing every frame (or
/// more) leaves none, and the trace is finished.
pub open spec fn drop_frames(stack: Seq<SymbolInfo>, k: int) -> Seq<SymbolInfo> {
    if k <= stack.len() {
        stack.skip(k)
    } else {
        Seq::empty()
    }
}

/// The call stack (current frame first) after a branch action; a new
/// trace starts with the target alone.
pub open spec fn stack_after(stack: Seq<SymbolInfo>, action: BranchAction, target: SymbolInfo) -> Seq<SymbolInfo> {
    match action {
        BranchAction::Ignore => stack,
        BranchAction::Return(levels) => drop_frames(stack, levels as int),
        BranchAction::ReturnTwiceThenCall => seq![target] + drop_frames(stack, 2),
        BranchAction::Call => seq![target] + stack,
        BranchAction::StartTrace => seq![target],
    }
}

proof fn lemma_first_covering(stack: Seq<SymbolInfo>, addr: u64, from: int)
    requires
        from >= 0,
    ensures
        match first_covering(stack, addr, from) {
            Some(i) => from <= i < stack.len() && symbol_covers(stack[i], addr) && forall|j: int|
                from <= j < i ==> !symbol_covers(#[trigger] stack[j], addr),
            None => forall|j: int| from <= j < stack.len() ==> !symbol_covers(#[trigger] stack[j], addr),
        },
    decreases stack.len() - from,
{
    if from < stack.len() {
        lemma_first_covering(stack, addr, from + 1);
    }
}

/// The level found is the first one, above the current frame, that covers
/// the address.
pub proof fn lemma_callstack_level(stack: Seq<SymbolInfo>, addr: u64)
    ensures
        match callstack_level(stack, addr) {
            Some(i) => 1 <= i < stack.len() && symbol_covers(stack[i], addr) && forall|j: int|
                1 <= j < i ==> !symbol_covers(#[trigger] stack[j], addr),
            None => forall|j: int| 1 <= j < stack.len() ==> !symbol_covers(#[trigger] stack[j], addr),
        },
{
    lemma_first_covering(stack, addr, 1);
}

/// Unknown frames (offset 0) appear only as the current frame.
pub open spec fn unknown_only_on_top(stack: Seq<SymbolInfo>) -> bool {
    forall|i: int| 1 <= i < stack.len() ==> (#[trigger] stack[i]).offset != 0
}

/// At most one unknown frame, on top of the stack: every branch decision
/// keeps it so. A return never completes more levels than the stack holds,
/// and, while the root frame is known, neither do two returns and a call.
pub proof fn lemma_unknown_frames_stay_on_top(
    stack: Option<Seq<SymbolInfo>>,
    target: SymbolInfo,
    addr: u64,
    ip: u64,
    is_call: bool,
    is_return: bool,
    pattern: Seq<char>,
    traces_limit: Option<u32>,
)
    requires
        stack matches Some(s) ==> 1 <= s.len() <= usize::MAX && unknown_only_on_top(s),
    ensures
        ({
            let d = branch_decision(stack, target, addr, ip, is_call, is_return, pattern, traces_limit);
            let before = match stack {
                Some(s) => s,
                None => Seq::empty(),
            };
            &&& d.action matches BranchAction::Return(levels) ==> 1 <= levels <= before.len()
            &&& (d.action is ReturnTwiceThenCall && before.last().offset != 0) ==> before.len() >= 2
            &&& unknown_only_on_top(stack_after(before, d.action, target))
        }),
{
    let d = branch_decision(stack, target, addr, ip, is_call, is_return, pattern, traces_limit);
    match stack {
        Some(s) => {
            lemma_callstack_level(s, addr);
            let after = stack_after(s, d.action, target);
            match d.action {
                BranchAction::Return(levels) => {
                    assert(1 <= levels <= s.len());
                    assert(after =~= s.skip(levels as int));
                    assert forall|i: int| 1 <= i < after.len() implies (#[trigger] after[i]).offset != 0 by {
                        assert(after[i] == s[i + levels]);
                    }
                },
                BranchAction::ReturnTwiceThenCall => {
                    if s.len() >= 2 {
                        assert forall|i: int| 1 <= i < after.len() implies (#[trigger] after[i]).offset != 0 by {
                            assert(after[i] == s[i + 1]);
                        }
                    } else {
                        assert(after =~= seq![target]);
                    }
                },
                BranchAction::Call => {
                    assert forall|i: int| 1 <= i < after.len() implies (#[trigger] after[i]).offset != 0 by {
                        assert(after[i] == s[i - 1]);
                    }
                },
                _ => {},
            }
        },
        None => {},
    }
}

/// The inputs of one branch decision besides the pattern and the limit: the
/// thread's call stack (`None` without a trace in progress), the resolved
/// target, the target address, the instruction pointer, and the call and
/// return flags.
pub type BranchInput = (Option<Seq<SymbolInfo>>, SymbolInfo, u64, u64, bool, bool);

/// The traces started, and the limit left, over a run of branch samples in
/// which each decision takes the limit the previous one left.
pub open spec fn run_branch_decisions(inputs: Seq<BranchInput>, pattern: Seq<char>, limit: Option<u32>) -> (
    nat,
    Option<u32>,
)
    decreases inputs.len(),
{
    if inputs.len() == 0 {
        (0, limit)
    } else {
        let (started, left) = run_branch_decisions(inputs.drop_last(), pattern, limit);
        let x = inputs.last();
        let d = branch_decision(x.0, x.1, x.2, x.3, x.4, x.5, pattern, left);
        (started + if d.action is StartTrace {
            1nat
        } else {
            0nat
        }, d.traces_limit)
    }
}

/// A limit on new traces holds over any run of branch samples: from
/// `Some(n)` at most `n` traces start and the limit left is `n` less those
/// started, so it never goes below zero; without a limit none is imposed.
pub proof fn lemma_traces_limit(inputs: Seq<BranchInput>, pattern: Seq<char>, limit: Option<u32>)
    ensures
        ({
            let (started, left) = run_branch_decisions(inputs, pattern, limit);
            &&& limit matches Some(n) ==> started <= n && left == Some((n - started) as u32)
            &&& limit is None ==> left is None
        }),
    decreases inputs.len(),
{
    if inputs.len() > 0 {
        lemma_traces_limit(inputs.drop_last(), pattern, limit);
    }
}

/// What a branch sample does in the simpler transformer that follows
/// explicit call and return instructions only.
#[derive(Debug, Clone, Copy, PartialEq, Eq, Structural)]
pub enum CallReturnAction {
    Ignore,
    /// Push a frame for the branch target.
    PushFrame,
    /// Start a trace at the branch target.
    StartTrace,
    /// Complete the current frame.
    CompleteFrame,
}

/// A call pushes a frame when a trace is in progress and otherwise starts one
/// when the target's name matches; a return completes a frame when a trace is
/// in progress.
pub open spec fn call_return_action(
    has_trace: bool,
    is_call: bool,
    is_return: bool,
    pattern: Seq<char>,
    target_name: Seq<char>,
) -> CallReturnAction {
    if is_call {
        if has_trace {
            CallReturnAction::PushFrame
        } else if regex_matches(pattern, target_name) {
            CallReturnAction::StartTrace
        } else {
            CallReturnAction::Ignore
        }
    } else if is_return && has_trace {
        CallReturnAction::CompleteFrame
    } else {
        CallReturnAction::Ignore
    }
}

/// In the call/return transformer a call inside a trace in progress always
/// pushes a frame, whatever the target's name; a trace starts only at a call
/// made outside any trace to a target the pattern matches; a return inside a
/// trace completes a frame; and anything else is ignored.
pub proof fn lemma_call_return_actions(
    has_trace: bool,
    is_call: bool,
    is_return: bool,
    pattern: Seq<char>,
    target_name: Seq<char>,
)
    ensures
        ({
            let a = call_return_action(has_trace, is_call, is_return, pattern, target_name);
            &&& (has_trace && is_call) ==> a == CallReturnAction::PushFrame
            &&& a == CallReturnAction::StartTrace <==> (!has_trace && is_call && regex_matches(
                pattern,
                target_name,
            ))
            &&& (has_trace && !is_call && is_return) ==> a == CallReturnAction::CompleteFrame
            &&& a == CallReturnAction::PushFrame ==> has_trace && is_call
            &&& a == CallReturnAction::CompleteFrame ==> has_trace && is_return && !is_call
            &&& (!is_call && !is_return) ==> a == CallReturnAction::Ignore
        }),
{
}

/// Decides what a branch sample does. A branch with an instruction pointer
/// of zero marks the end of trace data and is not a valid sample.
pub fn decide_call_return(
    has_trace: bool,
    ip: u64,
    is_call: bool,
    is_return: bool,
    sym_target: &Target,
    target: &SymbolInfo,
) -> (r: CallReturnAction)
    requires
        ip != 0,
    ensures
        r == call_return_action(has_trace, is_call, is_return, sym_target.spec_pattern(), target.name@),
{
    if is_call {
        if has_trace {
            CallReturnAction::PushFrame
        } else if sym_target.is_match(target.name.as_str()) {
            CallReturnAction::StartTrace
        } else {
            CallReturnAction::Ignore
        }
    } else if is_return && has_trace {
        CallReturnAction::CompleteFrame
    } else {
        CallReturnAction::Ignore
    }
}

/// Decimal text of a signed number.
pub open spec fn signed_decimal(n: i32) -> Seq<char> {
    if n < 0 {
        "-"@ + decimal((-n) as nat)
    } else {
        decimal(n as nat)
    }
}

/// The file an exported trace is written to: `trace-<tid>-<n>.flex.gz`, as it
/// holds a gzip-compressed flexbuffer.
pub fn trace_file_name(tid: i32, n: u32) -> (r: String)
    ensures
        r@ == "trace-"@ + signed_decimal(tid) + "-"@ + decimal(n as nat) + ".flex.gz"@,
{
    let mut name = String::from_str("trace-");
    if tid < 0 {
        name.append("-");
        let magnitude: u64 = (0i64 - (tid as i64)) as u64;
        push_decimal(&mut name, magnitude);
    } else {
        push_decimal(&mut name, tid as u64);
    }
    name.append("-");
    push_decimal(&mut name, n as u64);
    name.append(".flex.gz");
    name
}

/// How many traces have been exported for each thread.
pub struct TraceNumbers {
    nums: HashMap<i32, u32>,
}

impl TraceNumbers {
    pub closed spec fn spec_counts(&self) -> Map<i32, u32> {
        self.nums@
    }

    /// How many traces of thread `tid` have been numbered.
    pub open spec fn spec_count(&self, tid: i32) -> u32 {
        if self.spec_counts().contains_key(tid) {
            self.spec_counts()[tid]
        } else {
            0
        }
    }

    pub fn new() -> (r: Self)
        ensures
            r.spec_counts() == Map::<i32, u32>::empty(),
    {
        broadcast use vstd::std_specs::hash::group_hash_axioms;

        TraceNumbers { nums: HashMap::new() }
    }

    /// How many traces of thread `tid` have been numbered.
    pub fn count(&self, tid: i32) -> (r: u32)
        ensures
            r == self.spec_count(tid),
    {
        broadcast use vstd::std_specs::hash::group_hash_axioms;

        match self.nums.get(&tid) {
            Some(v) => *v,
            None => 0,
        }
    }

    /// The number of the next trace of thread `tid` (the first is 0).
    pub fn next(&mut self, tid: i32) -> (r: u32)
        requires
            old(self).spec_count(tid) < u32::MAX,
        ensures
            r == old(self).spec_count(tid),
            final(self).spec_counts() == old(self).spec_counts().insert(tid, (r + 1) as u32),
    {
        broadcast use vstd::std_specs::hash::group_hash_axioms;

        let n = match self.nums.get(&tid) {
            Some(v) => *v,
            None => 0,
        };
        self.nums.insert(tid, n + 1);
        n
    }
}

} // verus!
