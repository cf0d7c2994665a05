use pt_fuser::analysis::filter::Target;
use pt_fuser::trace::metrics::Metrics;
use pt_fuser::trace::SymbolInfo;
use pt_fuser::transform::{
    contained_in_callstack, decide_branch, decide_call_return, fallback_symbol, ip_outside_current_frame,
    data_collection_error_event, resolved_symbol, symbol_for_address, trace_file_name, unresolved_symbol,
    BranchAction, BranchDecision, CallReturnAction, Counters, RawSymbol, TraceNumbers,
};

fn sym(name: &str, offset: u64, size: u64) -> SymbolInfo {
    SymbolInfo { name: name.to_string(), offset, size }
}

#[test]
fn symbols() {
    let f = fallback_symbol();
    assert_eq!(f.name, "[unknown]");
    assert_eq!((f.offset, f.size), (0, 0));
    let r = resolved_symbol("main".to_string(), 0x400, 0x480);
    assert_eq!((r.name.as_str(), r.offset, r.size), ("main", 0x400, 0x80));
    let u = unresolved_symbol(0xdeadbeef);
    assert_eq!(u.name, "[ 0xdeadbeef ]");
    assert_eq!(u.offset, 0);
}

#[test]
fn callstack_levels() {
    let stack = vec![sym("cur", 0x100, 0x10), sym("parent", 0x200, 0x10), sym("grand", 0x300, 0x10)];
    assert_eq!(contained_in_callstack(&stack, 0x305), Some(2));
    assert_eq!(contained_in_callstack(&stack, 0x200), Some(1));
    // the current frame is not a level to return to
    assert_eq!(contained_in_callstack(&stack, 0x105), None);
    assert_eq!(contained_in_callstack(&stack, 0x999), None);
    assert_eq!(contained_in_callstack(&[], 0x1), None);
}

#[test]
fn counters() {
    let mut c = Counters::new();
    c.count_instruction(3);
    c.count_instruction(4);
    assert_eq!((c.insn_cnt, c.cyc_cnt), (2, 7));
    assert_eq!(c.metrics_at(99), Metrics::new(99, 7, 2));
    assert!(ip_outside_current_frame(&sym("f", 0x100, 0x10), 0x200));
    assert!(!ip_outside_current_frame(&sym("f", 0x100, 0x10), 0x108));
    assert!(!ip_outside_current_frame(&fallback_symbol(), 0x200));
}

fn decision(record_error: bool, action: BranchAction, traces_limit: Option<u32>) -> BranchDecision {
    BranchDecision { record_error, action, traces_limit }
}

#[test]
fn branches_without_a_trace() {
    let t = Target::new("^main$").unwrap();
    let main = sym("main", 0x400, 0x80);
    assert_eq!(
        decide_branch(None, &main, 0x400, 0x10, true, false, &t, None),
        decision(false, BranchAction::StartTrace, None)
    );
    assert_eq!(
        decide_branch(None, &main, 0x400, 0x10, true, false, &t, Some(2)),
        decision(false, BranchAction::StartTrace, Some(1))
    );
    assert_eq!(
        decide_branch(None, &main, 0x400, 0x10, true, false, &t, Some(0)),
        decision(false, BranchAction::Ignore, Some(0))
    );
    assert_eq!(
        decide_branch(None, &sym("other", 0x400, 0x80), 0x400, 0x10, true, false, &t, None),
        decision(false, BranchAction::Ignore, None)
    );
    assert_eq!(
        decide_branch(None, &fallback_symbol(), 0x400, 0x10, true, false, &t, None),
        decision(false, BranchAction::Ignore, None)
    );
}

#[test]
fn branches_from_known_frames() {
    let t = Target::new("^main$").unwrap();
    let stack = vec![sym("cur", 0x100, 0x10), sym("parent", 0x200, 0x10)];
    let callee = sym("callee", 0x500, 0x10);
    // staying inside the current frame
    assert_eq!(
        decide_branch(Some(&stack), &stack[0], 0x104, 0x102, false, false, &t, None),
        decision(false, BranchAction::Ignore, None)
    );
    // into the parent: a return of one level
    assert_eq!(
        decide_branch(Some(&stack), &stack[1], 0x204, 0x10c, false, true, &t, None),
        decision(false, BranchAction::Return(1), None)
    );
    // flagged as a call wins
    assert_eq!(
        decide_branch(Some(&stack), &stack[1], 0x204, 0x10c, true, false, &t, None),
        decision(false, BranchAction::Call, None)
    );
    // into no frame of the stack: a call
    assert_eq!(
        decide_branch(Some(&stack), &callee, 0x500, 0x10c, false, false, &t, None),
        decision(false, BranchAction::Call, None)
    );
    // a zero instruction pointer is recorded as an error
    assert_eq!(
        decide_branch(Some(&stack), &callee, 0x500, 0, false, false, &t, None),
        decision(true, BranchAction::Call, None)
    );
    // a return out of the last frame finishes the trace
    let single = vec![sym("cur", 0x100, 0x10)];
    assert_eq!(
        decide_branch(Some(&single), &callee, 0x900, 0x10c, false, true, &t, None),
        decision(false, BranchAction::Return(1), None)
    );
}

#[test]
fn branches_from_unknown_frames() {
    let t = Target::new("^main$").unwrap();
    let stack = vec![fallback_symbol(), sym("parent", 0x200, 0x10), sym("grand", 0x300, 0x10)];
    assert_eq!(
        decide_branch(Some(&stack), &stack[2], 0x304, 0x1, false, false, &t, None),
        decision(false, BranchAction::Return(2), None)
    );
    assert_eq!(
        decide_branch(Some(&stack), &sym("known", 0x700, 0x10), 0x704, 0x1, false, false, &t, None),
        decision(false, BranchAction::ReturnTwiceThenCall, None)
    );
    assert_eq!(
        decide_branch(Some(&stack), &fallback_symbol(), 0x704, 0x1, false, false, &t, None),
        decision(false, BranchAction::Ignore, None)
    );
}

#[test]
fn call_return_decisions() {
    let t = Target::new("^main$").unwrap();
    let main = sym("main", 0x400, 0x80);
    let other = sym("other", 0x500, 0x80);
    assert_eq!(decide_call_return(false, 1, true, false, &t, &main), CallReturnAction::StartTrace);
    assert_eq!(decide_call_return(false, 1, true, false, &t, &other), CallReturnAction::Ignore);
    assert_eq!(decide_call_return(true, 1, true, false, &t, &other), CallReturnAction::PushFrame);
    assert_eq!(decide_call_return(true, 1, false, true, &t, &other), CallReturnAction::CompleteFrame);
    assert_eq!(decide_call_return(false, 1, false, true, &t, &other), CallReturnAction::Ignore);
}

#[test]
fn trace_numbering_and_files() {
    let mut nums = TraceNumbers::new();
    assert_eq!(nums.next(5), 0);
    assert_eq!(nums.next(5), 1);
    assert_eq!(nums.next(-3), 0);
    assert_eq!(nums.next(5), 2);
    assert_eq!(trace_file_name(5, 2), "trace-5-2.flex.gz");
    assert_eq!(trace_file_name(-3, 0), "trace--3-0.flex.gz");
    assert_eq!(trace_file_name(i32::MIN, 10), "trace--2147483648-10.flex.gz");
}

/// Applies a decision to a stack kept current-frame-first, as the
/// transformer does.
fn apply(stack: &mut Vec<SymbolInfo>, action: BranchAction, target: &SymbolInfo) {
    match action {
        BranchAction::Ignore => {}
        BranchAction::Return(levels) => {
            stack.drain(..levels.min(stack.len()));
        }
        BranchAction::ReturnTwiceThenCall => {
            stack.drain(..2.min(stack.len()));
            stack.insert(0, target.clone());
        }
        BranchAction::Call => stack.insert(0, target.clone()),
        BranchAction::StartTrace => *stack = vec![target.clone()],
    }
}

fn unknown_only_on_top(stack: &[SymbolInfo]) -> bool {
    stack.iter().skip(1).all(|s| s.offset != 0)
}

#[test]
fn unknown_frames_stay_on_top() {
    let t = Target::new("^main$").unwrap();
    let main = sym("main", 0x400, 0x80);
    let lib = fallback_symbol();
    let helper = sym("helper", 0x600, 0x40);
    let mut stack = vec![main.clone()];
    // main calls into unknown library code, which returns into main; then
    // main calls helper, which returns into main
    let steps = [
        (lib.clone(), 0x9000, true, false),
        (main.clone(), 0x410, false, false),
        (helper.clone(), 0x600, true, false),
        (main.clone(), 0x420, false, true),
    ];
    for (target, addr, is_call, is_return) in steps {
        let d = decide_branch(Some(&stack), &target, addr, 0x1, is_call, is_return, &t, None);
        apply(&mut stack, d.action, &target);
        assert!(unknown_only_on_top(&stack));
    }
    assert_eq!(stack.len(), 1);
    assert_eq!(stack[0].name, "main");
}

#[test]
fn unknown_root_frame_stays_alone_on_top() {
    let t = Target::new("^main$").unwrap();
    let lib = fallback_symbol();
    let main = sym("main", 0x400, 0x80);
    let mut stack = vec![lib.clone()];
    let d = decide_branch(Some(&stack), &lib, 0x9100, 0x1, true, false, &t, None);
    assert_eq!(d.action, BranchAction::Ignore);
    let d = decide_branch(Some(&stack), &main, 0x410, 0x1, true, false, &t, None);
    assert_eq!(d.action, BranchAction::ReturnTwiceThenCall);
    apply(&mut stack, d.action, &main);
    assert!(unknown_only_on_top(&stack));
    assert_eq!(stack.len(), 1);
    assert_eq!(stack[0].name, "main");
}

#[test]
fn traces_limit_over_a_run_of_samples() {
    let t = Target::new("^main$").unwrap();
    let main = sym("main", 0x400, 0x80);
    let mut limit = Some(2);
    let mut started = 0;
    for _ in 0..5 {
        let d = decide_branch(None, &main, 0x400, 0x10, true, false, &t, limit);
        if d.action == BranchAction::StartTrace {
            started += 1;
        }
        limit = d.traces_limit;
    }
    assert_eq!(started, 2);
    assert_eq!(limit, Some(0));
    let mut limit = None;
    for _ in 0..3 {
        let d = decide_branch(None, &main, 0x400, 0x10, true, false, &t, limit);
        assert_eq!(d.action, BranchAction::StartTrace);
        limit = d.traces_limit;
    }
    assert_eq!(limit, None);
}

#[test]
fn new_trace_registers_the_errors_event() {
    let e = data_collection_error_event();
    assert_eq!(e.id(), 0);
    assert_eq!(e.name, "Errors");
    assert_eq!(e.description, "Trace decoder hit an error. Callstacks may be corrupted.");
    assert!(e.occurences().is_empty());
}

#[test]
fn symbol_of_a_sampled_address() {
    let raw = || Some(RawSymbol { name: Some("main".to_string()), start: 0x400, end: 0x480 });
    let s = symbol_for_address(true, raw(), 0x410);
    assert_eq!((s.name.as_str(), s.offset, s.size), ("main", 0x400, 0x80));
    let s = symbol_for_address(true, Some(RawSymbol { name: None, start: 0x400, end: 0x480 }), 0x410);
    assert_eq!((s.name.as_str(), s.offset, s.size), ("Non UTF-8 symbol", 0x400, 0x80));
    // no correlation: the resolver's answer is not used
    let s = symbol_for_address(false, raw(), 0x410);
    assert_eq!((s.name.as_str(), s.offset, s.size), ("[ 0x410 ]", 0, 0));
    let s = symbol_for_address(true, None, 0xabc);
    assert_eq!((s.name.as_str(), s.offset, s.size), ("[ 0xabc ]", 0, 0));
}
