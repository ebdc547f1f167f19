use vstd::prelude::*;

use crate::config::WasmRuleConfig;
use crate::policy::decision::{opt_decision, Decision, DecisionSource, DecisionView};
use crate::text::str_eq;

verus! {

broadcast use vstd::string::group_string_axioms;

/// A configured WebAssembly rule module: its name and its priority.
#[derive(Debug)]
pub struct WasmModule {
    pub name: String,
    pub priority: u32,
}

/// The WebAssembly rule modules, in configuration order. Running a module is the caller's
/// work; the engine decides between the modules' answers.
pub struct WasmEngine {
    modules: Vec<WasmModule>,
}

/// The module whose answer decides: among the modules that answered, the one with the
/// highest priority, and of several with that priority the first.
pub open spec fn wasm_winner(priorities: Seq<u32>, answers: Seq<Option<DecisionView>>) -> Option<int>
    decreases answers.len(),
{
    if answers.len() == 0 {
        None
    } else {
        let w = wasm_winner(priorities, answers.drop_last());
        let last = answers.len() - 1;
        if answers[last] is Some && last < priorities.len() && (match w {
            Some(i) => priorities[i] < priorities[last],
            None => true,
        }) {
            Some(last)
        } else {
            w
        }
    }
}

/// The decision of the WebAssembly stage: the winning module's answer, if any.
pub open spec fn wasm_decision_spec(priorities: Seq<u32>, answers: Seq<Option<DecisionView>>) -> Option<DecisionView> {
    match wasm_winner(priorities, answers) {
        Some(i) => answers[i],
        None => None,
    }
}

/// The views of a list of optional decisions.
pub open spec fn answer_views(v: Seq<Option<Decision>>) -> Seq<Option<DecisionView>> {
    v.map_values(|d: Option<Decision>| opt_decision(d))
}

impl WasmEngine {
    /// The priorities of the modules, in order.
    pub closed spec fn priorities(&self) -> Seq<u32> {
        self.modules@.map_values(|m: WasmModule| m.priority)
    }

    /// The names of the modules, in order.
    pub closed spec fn names(&self) -> Seq<Seq<char>> {
        self.modules@.map_values(|m: WasmModule| m.name@)
    }

    /// An engine with one module per configuration entry, in order.
    pub fn new(configs: &[WasmRuleConfig]) -> (e: Self)
        ensures
            e.priorities() == configs@.map_values(|c: WasmRuleConfig| c.priority),
            e.names() == configs@.map_values(|c: WasmRuleConfig| c.name@),
    {
        let mut modules: Vec<WasmModule> = Vec::new();
        for i in 0..configs.len()
            invariant
                modules@.len() == i,
                forall|k: int| 0 <= k < i ==> #[trigger] modules@[k].priority == configs@[k].priority,
                forall|k: int| 0 <= k < i ==> #[trigger] modules@[k].name@ == configs@[k].name@,
        {
            let name = configs[i].name.clone();
            assert(name@ == configs@[i as int].name@);
            modules.push(WasmModule { name, priority: configs[i].priority });
        }
        let e = WasmEngine { modules };
        assert(e.priorities() =~= configs@.map_values(|c: WasmRuleConfig| c.priority));
        assert(e.names() =~= configs@.map_values(|c: WasmRuleConfig| c.name@));
        e
    }

    /// The number of modules.
    pub fn module_count(&self) -> (n: usize)
        ensures
            n == self.priorities().len(),
    {
        self.modules.len()
    }

    /// The name of module `i`.
    pub fn module_name(&self, i: usize) -> (s: String)
        requires
            i < self.names().len(),
        ensures
            s@ == self.names()[i as int],
    {
        self.modules[i].name.clone()
    }

    /// The decision of the WebAssembly stage, given what each module answered
    /// (`answers[i]` for module `i`; a module that could not run answers `None`).
    pub fn evaluate(&self, answers: &[Option<Decision>]) -> (d: Option<Decision>)
        ensures
            opt_decision(d) == wasm_decision_spec(self.priorities(), answer_views(answers@)),
    {
        let ghost pr = self.priorities();
        let ghost av = answer_views(answers@);
        let n = answers.len();
        let mut best: Option<usize> = None;
        for i in 0..n
            invariant
                n == answers@.len(),
                pr == self.priorities(),
                pr.len() == self.modules@.len(),
                av == answer_views(answers@),
                match best {
                    Some(b) => b < i && b < pr.len() && wasm_winner(pr, av.take(i as int)) == Some(b as int),
                    None => wasm_winner(pr, av.take(i as int)) == None::<int>,
                },
        {
            assert(av.take(i + 1).drop_last() =~= av.take(i as int));
            assert(av.take(i + 1)[i as int] == av[i as int]);
            if answers[i].is_some() && i < self.modules.len() {
                let better = match best {
                    Some(b) => self.modules[b].priority < self.modules[i].priority,
                    None => true,
                };
                if better {
                    best = Some(i);
                }
            }
        }
        assert(av.take(n as int) =~= av);
        match best {
            Some(b) => match &answers[b] {
                Some(d) => Some(d.duplicate()),
                None => None,
            },
            None => None,
        }
    }
}

/// The answer of the highest-priority module decides: when the stage decides, the deciding
/// module is a configured one that answered, no module that answered has a higher priority,
/// and every earlier module that answered has a lower one (the first of equals wins); the
/// stage gives no decision only when no configured module answered.
pub proof fn lemma_wasm_highest_priority_wins(priorities: Seq<u32>, answers: Seq<Option<DecisionView>>)
    ensures
        match wasm_winner(priorities, answers) {
            Some(w) => {
                &&& 0 <= w < answers.len()
                &&& w < priorities.len()
                &&& answers[w] is Some
                &&& wasm_decision_spec(priorities, answers) == answers[w]
                &&& forall|j: int|
                    0 <= j < answers.len() && j < priorities.len() && #[trigger] answers[j] is Some
                        ==> priorities[j] <= priorities[w]
                &&& forall|j: int|
                    0 <= j < w && #[trigger] answers[j] is Some ==> priorities[j] < priorities[w]
            },
            None => {
                &&& wasm_decision_spec(priorities, answers) is None
                &&& forall|j: int|
                    0 <= j < answers.len() && j < priorities.len() ==> #[trigger] answers[j] is None
            },
        },
    decreases answers.len(),
{
    if answers.len() > 0 {
        let prefix = answers.drop_last();
        let last = answers.len() - 1;
        lemma_wasm_highest_priority_wins(priorities, prefix);
        assert forall|j: int| 0 <= j < prefix.len() implies #[trigger] prefix[j] == answers[j] by {}
        let wp = wasm_winner(priorities, prefix);
        match wasm_winner(priorities, answers) {
            Some(w) => {
                assert forall|j: int|
                    0 <= j < answers.len() && j < priorities.len() && #[trigger] answers[j] is Some
                        implies priorities[j] <= priorities[w] by {
                    if j < last {
                        assert(prefix[j] == answers[j]);
                    }
                }
                assert forall|j: int|
                    0 <= j < w && #[trigger] answers[j] is Some implies priorities[j] < priorities[w] by {
                    assert(prefix[j] == answers[j]);
                    if w == last {
                        match wp {
                            Some(v) => {
                                assert(prefix[v] == answers[v]);
                            },
                            None => {},
                        }
                    }
                }
                if w < last {
                    assert(prefix[w] == answers[w]);
                }
            },
            None => {
                assert forall|j: int| 0 <= j < answers.len() && j < priorities.len() implies #[trigger] answers[j] is None by {
                    if j < last {
                        assert(prefix[j] == answers[j]);
                    }
                }
            },
        }
    }
}

/// The decision a module's `action` and `reason` stand for; any other action is no answer.
pub open spec fn module_answer(action: Seq<char>, reason: Seq<char>) -> Option<DecisionView> {
    if action == "allow"@ {
        Some(DecisionView::Allow { reason, source: DecisionSource::Wasm })
    } else if action == "block"@ {
        Some(DecisionView::Block { reason, source: DecisionSource::Wasm })
    } else if action == "throttle"@ {
        Some(DecisionView::Throttle { reason, source: DecisionSource::Wasm })
    } else {
        None
    }
}

/// The decision that a module's output `{action, reason}` stands for.
pub fn wasm_answer(action: &str, reason: String) -> (d: Option<Decision>)
    ensures
        opt_decision(d) == module_answer(action@, reason@),
{
    if str_eq(action, "allow") {
        Some(Decision::Allow { reason, source: DecisionSource::Wasm })
    } else if str_eq(action, "block") {
        Some(Decision::Block { reason, source: DecisionSource::Wasm })
    } else if str_eq(action, "throttle") {
        Some(Decision::Throttle { reason, source: DecisionSource::Wasm })
    } else {
        None
    }
}

/// Bytes of JSON output a module may return.
pub const MAX_OUTPUT_BYTES: usize = 65536;

/// The bounds `[start, start + len)` of a range of guest memory at `ptr`, when `ptr` is not
/// negative and the range lies within `size` bytes.
pub open spec fn range_bounds(size: int, ptr: i32, len: int) -> Option<(int, int)> {
    if ptr >= 0 && ptr + len <= size {
        Some((ptr as int, ptr + len))
    } else {
        None
    }
}

/// The `len` bytes of guest memory at `ptr`, if they lie within `data`.
pub fn read_range(data: &[u8], ptr: i32, len: usize) -> (r: Option<&[u8]>)
    ensures
        match range_bounds(data@.len() as int, ptr, len as int) {
            Some((a, b)) => r matches Some(s) && s@ == data@.subrange(a, b),
            None => r is None,
        },
{
    if ptr < 0 {
        return None;
    }
    let start = ptr as usize;
    if len > data.len() || start > data.len() - len {
        return None;
    }
    let end = start + len;
    Some(&data[start..end])
}

/// The little-endian 32-bit signed integer in four bytes.
pub open spec fn le_i32(b0: u8, b1: u8, b2: u8, b3: u8) -> int {
    let u = b0 + 256 * b1 + 65536 * b2 + 16777216 * b3;
    if b3 >= 128 {
        u - 4294967296
    } else {
        u
    }
}

/// Why a module's output could not be read.
#[derive(Debug, Clone, Copy, PartialEq, Eq, Structural)]
pub enum OutputProblem {
    /// The length prefix or the output lies outside guest memory, or the length is negative.
    Invalid,
    /// The output is longer than [`MAX_OUTPUT_BYTES`].
    Oversized(usize),
}

/// Where a module's output lies: a little-endian `i32` length at `ptr`, then that many
/// bytes. A negative length, or one beyond [`MAX_OUTPUT_BYTES`], is refused.
pub open spec fn output_bounds(data: Seq<u8>, ptr: i32) -> Result<(int, int), OutputProblem> {
    match range_bounds(data.len() as int, ptr, 4) {
        None => Err(OutputProblem::Invalid),
        Some((a, _)) => {
            let n = le_i32(data[a], data[a + 1], data[a + 2], data[a + 3]);
            if n < 0 {
                Err(OutputProblem::Invalid)
            } else if n > MAX_OUTPUT_BYTES {
                Err(OutputProblem::Oversized(n as usize))
            } else if ptr + 4 > i32::MAX {
                Err(OutputProblem::Invalid)
            } else {
                match range_bounds(data.len() as int, (ptr + 4) as i32, n) {
                    None => Err(OutputProblem::Invalid),
                    Some(r) => Ok(r),
                }
            }
        },
    }
}

/// The JSON output of a module, from guest memory `data` and the pointer it returned.
pub fn output_bytes(data: &[u8], ptr: i32) -> (r: Result<&[u8], OutputProblem>)
    ensures
        match output_bounds(data@, ptr) {
            Ok((a, b)) => r matches Ok(s) && s@ == data@.subrange(a, b),
            Err(p) => r == Err::<&[u8], OutputProblem>(p),
        },
{
    let prefix = match read_range(data, ptr, 4) {
        Some(p) => p,
        None => return Err(OutputProblem::Invalid),
    };
    let b0 = prefix[0];
    let b1 = prefix[1];
    let b2 = prefix[2];
    let b3 = prefix[3];
    if b3 >= 128 {
        return Err(OutputProblem::Invalid);
    }
    let n: usize = (b0 as u32 + 256 * (b1 as u32) + 65536 * (b2 as u32) + 16777216 * (b3 as u32)) as usize;
    if n > MAX_OUTPUT_BYTES {
        return Err(OutputProblem::Oversized(n));
    }
    let body_ptr = match ptr.checked_add(4) {
        Some(p) => p,
        None => return Err(OutputProblem::Invalid),
    };
    match read_range(data, body_ptr, n) {
        Some(s) => Ok(s),
        None => Err(OutputProblem::Invalid),
    }
}


/// Guest memory `data` with `bytes` written at `ptr`, when that range lies within it.
pub open spec fn written(data: Seq<u8>, ptr: i32, bytes: Seq<u8>) -> Option<Seq<u8>> {
    match range_bounds(data.len() as int, ptr, bytes.len() as int) {
        Some((a, b)) => Some(data.subrange(0, a) + bytes + data.subrange(b, data.len() as int)),
        None => None,
    }
}

/// Writes `bytes` into guest memory at `ptr` when the range lies within it, and says
/// whether it did; memory is left untouched otherwise.
pub fn write_range(data: &mut [u8], ptr: i32, bytes: &[u8]) -> (ok: bool)
    ensures
        match written(old(data)@, ptr, bytes@) {
            Some(after) => ok && final(data)@ == after,
            None => !ok && final(data)@ == old(data)@,
        },
{
    if ptr < 0 {
        return false;
    }
    let start = ptr as usize;
    let len = bytes.len();
    if len > data.len() || start > data.len() - len {
        return false;
    }
    for i in 0..len
        invariant
            len == bytes@.len(),
            start + len <= data.len(),
            start == ptr as int,
            data@.len() == old(data)@.len(),
            forall|j: int| 0 <= j < i ==> data@[start + j] == bytes@[j],
            forall|k: int|
                0 <= k < data@.len() && !(start <= k < start + i) ==> data@[k] == old(data)@[k],
    {
        data[start + i] = bytes[i];
    }
    assert(data@ =~= old(data)@.subrange(0, start as int) + bytes@ + old(data)@.subrange(
        (start + len) as int,
        old(data)@.len() as int,
    ));
    true
}

} // verus!
