use gatekeeper::config::WasmRuleConfig;
use gatekeeper::policy::decision::{Decision, DecisionSource};
use gatekeeper::wasm::{output_bytes, read_range, wasm_answer, write_range, OutputProblem, WasmEngine};

fn cfg(name: &str, priority: u32) -> WasmRuleConfig {
    WasmRuleConfig { name: name.into(), path: format!("{}.wasm", name), priority }
}

fn allow(r: &str) -> Option<Decision> {
    Some(Decision::Allow { reason: r.into(), source: DecisionSource::Wasm })
}

#[test]
fn highest_priority_answer_wins() {
    let e = WasmEngine::new(&[cfg("a", 1), cfg("b", 5), cfg("c", 5), cfg("d", 9)]);
    assert_eq!(e.module_count(), 4);
    assert_eq!(e.module_name(1), "b");
    let d = e.evaluate(&[allow("a"), allow("b"), allow("c"), None]).unwrap();
    assert!(matches!(d, Decision::Allow { ref reason, .. } if reason == "b"));
    assert!(e.evaluate(&[None, None, None, None]).is_none());
}

#[test]
fn module_actions() {
    assert!(matches!(wasm_answer("block", "r".into()), Some(Decision::Block { source: DecisionSource::Wasm, .. })));
    assert!(matches!(wasm_answer("throttle", "r".into()), Some(Decision::Throttle { .. })));
    assert!(wasm_answer("nuke", "r".into()).is_none());
}

#[test]
fn guest_memory_ranges() {
    let data = [1u8, 2, 3, 4, 5];
    assert_eq!(read_range(&data, 1, 3), Some(&data[1..4]));
    assert_eq!(read_range(&data, -1, 1), None);
    assert_eq!(read_range(&data, 3, 3), None);
    assert_eq!(read_range(&data, 5, 0), Some(&data[5..5]));
}

#[test]
fn output_is_length_prefixed() {
    let mut mem = vec![0u8; 4];
    mem.extend_from_slice(&3i32.to_le_bytes());
    mem.extend_from_slice(b"abc!");
    assert_eq!(output_bytes(&mem, 4), Ok(&b"abc"[..]));
    let mut neg = vec![];
    neg.extend_from_slice(&(-1i32).to_le_bytes());
    assert_eq!(output_bytes(&neg, 0), Err(OutputProblem::Invalid));
    let mut big = vec![];
    big.extend_from_slice(&70000i32.to_le_bytes());
    assert_eq!(output_bytes(&big, 0), Err(OutputProblem::Oversized(70000)));
    assert_eq!(output_bytes(&mem, 9), Err(OutputProblem::Invalid));
}

#[test]
fn guest_memory_writes() {
    let mut mem = [0u8; 8];
    assert!(write_range(&mut mem, 2, &[7, 8, 9]));
    assert_eq!(mem, [0, 0, 7, 8, 9, 0, 0, 0]);
    assert!(write_range(&mut mem, 5, &[1, 2, 3]));
    assert_eq!(mem, [0, 0, 7, 8, 9, 1, 2, 3]);
    assert!(!write_range(&mut mem, 6, &[4, 4, 4]));
    assert!(!write_range(&mut mem, -1, &[4]));
    assert_eq!(mem, [0, 0, 7, 8, 9, 1, 2, 3]);
}
