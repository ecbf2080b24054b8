use rine::compare::Verdict;
use rine::gen::memory_sequence;
use rine::memory_case::{mem_op_debug, HostCall, HostReply, MemoryCase};
use rine::models::MemOp;
use rine::rng::Rng;

/// A host that grants every request, handing out fresh addresses.
fn run_with_host(ops: &[MemOp], grant: impl Fn(&HostCall) -> bool) -> (Verdict, String, usize) {
    let mut case = MemoryCase::new(4096);
    let mut next: usize = 0x10_0000;
    for op in ops {
        if let Some(call) = case.begin(op) {
            let ok = grant(&call);
            let reply = match call {
                HostCall::MapPages { len, .. } => {
                    if ok {
                        let b = next;
                        next += len + 0x10_0000;
                        HostReply::Mapped(Some(b))
                    } else {
                        HostReply::Mapped(None)
                    }
                }
                _ => HostReply::Done(ok),
            };
            case.complete(reply);
        }
    }
    let (v, d) = case.verdict();
    (v, d, case.coverage().len())
}

#[test]
fn memory_agrees_with_model_on_generated_cases() {
    for seed in 0..200u64 {
        let mut rng = Rng::new(seed);
        let ops = memory_sequence(&mut rng, 30, 5);
        let (v, d, _) = run_with_host(&ops, |_| true);
        assert_eq!(v, Verdict::Match, "seed {seed}: {d}");
    }
}

#[test]
fn memory_lifecycle_through_the_manager() {
    let ops = vec![
        MemOp::Reserve { id: 0, size: 5000, protect: 2 },
        MemOp::Protect { id: 0, protect: 1 },
        MemOp::Commit { id: 0, protect: 2 },
        MemOp::Query { id: 0, offset: 10 },
        MemOp::Protect { id: 0, protect: 1 },
        MemOp::Commit { id: 0, protect: 2 },
        MemOp::Release { id: 0 },
        MemOp::Release { id: 0 },
        MemOp::Query { id: 0, offset: 0 },
    ];
    let (v, d, n) = run_with_host(&ops, |_| true);
    assert_eq!((v, d.as_str()), (Verdict::Match, ""));
    assert_eq!(n, ops.len());
}

#[test]
fn host_refusal_is_a_mismatch_with_the_op() {
    let ops = vec![MemOp::Reserve { id: 3, size: 4096, protect: 2 }];
    let (v, d, _) = run_with_host(&ops, |_| false);
    assert_eq!(v, Verdict::SemanticMismatch);
    assert_eq!(d, "op Reserve { id: 3, size: 4096, protect: 2 }: modelo=true rine=false");
}

#[test]
fn op_debug_matches_derive() {
    for op in [
        MemOp::Reserve { id: 1, size: 2, protect: 3 },
        MemOp::Commit { id: 4, protect: 5 },
        MemOp::Protect { id: 6, protect: 0 },
        MemOp::Query { id: 7, offset: 99 },
        MemOp::Release { id: 8 },
    ] {
        assert_eq!(mem_op_debug(&op), format!("{op:?}"));
    }
}

#[test]
fn leftovers_are_the_tracked_regions() {
    let mut case = MemoryCase::new(4096);
    let call = case.begin(&MemOp::Reserve { id: 1, size: 5000, protect: 2 });
    assert_eq!(
        call,
        Some(HostCall::MapPages { len: 8192, prot: rine::nt_memory::Prot { read: false, write: false, execute: false } })
    );
    case.complete(HostReply::Mapped(Some(0x100_0000)));
    assert_eq!(case.leftovers(), vec![(0x100_0000, 8192)]);
    let call = case.begin(&MemOp::Release { id: 1 });
    assert_eq!(call, Some(HostCall::Unmap { base: 0x100_0000, len: 8192 }));
    case.complete(HostReply::Done(true));
    assert!(case.leftovers().is_empty());
    assert_eq!(case.verdict(), (Verdict::Match, String::new()));
}

#[test]
fn commit_of_unknown_id_is_refused_without_host_work() {
    let mut case = MemoryCase::new(4096);
    assert_eq!(case.begin(&MemOp::Commit { id: 7, protect: 2 }), None);
    assert_eq!(case.verdict(), (Verdict::Match, String::new()));
    assert_eq!(case.coverage(), vec![("op".to_string(), "commit".to_string())]);
}
