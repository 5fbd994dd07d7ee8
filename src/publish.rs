use vstd::prelude::*;
use crate::errors::{error_of, ExecutionError, ExecutionErrorKind};
use crate::marshal::{init_name, ModuleView};

verus! {

/// The module declares an initializer.
pub open spec fn has_init(m: ModuleView) -> bool {
    exists|j: int| 0 <= j < m.functions@.len() && (#[trigger] m.functions@[j]).name@ == init_name()
}

fn declares_init(m: &ModuleView) -> (r: bool)
    ensures
        r == has_init(*m),
{
    let mut j: usize = 0;
    while j < m.functions.len()
        invariant
            j <= m.functions@.len(),
            forall|k: int| 0 <= k < j ==> (#[trigger] m.functions@[k]).name@ != init_name(),
        decreases m.functions@.len() - j,
    {
        if m.functions[j].name == "init".to_string() {
            return true;
        }
        j += 1;
    }
    false
}

/// The modules whose initializers run at publication, in file order.
pub fn modules_to_init(modules: &Vec<ModuleView>) -> (r: Vec<usize>)
    ensures
        forall|a: int, b: int| 0 <= a < b < r@.len() ==> r@[a] < r@[b],
        forall|k: int| 0 <= k < r@.len() ==> #[trigger] r@[k] < modules@.len(),
        forall|i: int| 0 <= i < modules@.len() ==> (has_init(#[trigger] modules@[i]) <==> r@.contains(i as usize)),
{
    let mut out: Vec<usize> = Vec::new();
    let mut i: usize = 0;
    while i < modules.len()
        invariant
            i <= modules@.len(),
            forall|a: int, b: int| 0 <= a < b < out@.len() ==> out@[a] < out@[b],
            forall|k: int| 0 <= k < out@.len() ==> #[trigger] out@[k] < i,
            forall|m: int| 0 <= m < i ==> (has_init(#[trigger] modules@[m]) <==> out@.contains(m as usize)),
        decreases modules@.len() - i,
    {
        let ghost prev = out@;
        if declares_init(&modules[i]) {
            out.push(i);
            assert(out@[out@.len() - 1] == i);
        }
        assert forall|m: int| 0 <= m < i + 1 implies (has_init(#[trigger] modules@[m]) <==> out@.contains(m as usize)) by {
            if m < i {
                if prev.contains(m as usize) {
                    let w = choose|w: int| 0 <= w < prev.len() && prev[w] == m as usize;
                    assert(out@[w] == prev[w]);
                }
                if out@.contains(m as usize) {
                    let w = choose|w: int| 0 <= w < out@.len() && out@[w] == m as usize;
                    if w < prev.len() {
                        assert(prev[w] == out@[w]);
                    }
                }
            } else {
                if out@.contains(m as usize) {
                    let w = choose|w: int| 0 <= w < out@.len() && out@[w] == m as usize;
                    if w < prev.len() {
                        assert(prev[w] < i);
                    }
                }
                if has_init(modules@[m]) {
                    assert(out@[out@.len() - 1] == i);
                }
            }
        }
        i += 1;
    }
    out
}

/// The total size of the module bytes a publication or an upgrade charges for;
/// none when it does not fit in a `u64`.
pub fn package_byte_size(module_bytes: &Vec<Vec<u8>>) -> (r: Result<u64, ExecutionError>)
    ensures
        module_bytes@.len() == 0 ==> r == Err::<u64, ExecutionError>(
            error_of(ExecutionErrorKind::InvariantViolation),
        ),
        r matches Ok(n) ==> n as nat == total_len(module_bytes@, module_bytes@.len() as int),
        module_bytes@.len() > 0 && total_len(module_bytes@, module_bytes@.len() as int) <= u64::MAX
            ==> r is Ok,
{
    // an empty package is refused before execution
    if module_bytes.len() == 0 {
        return Err(ExecutionError::from_kind(ExecutionErrorKind::InvariantViolation));
    }
    let mut total: u64 = 0;
    let mut i: usize = 0;
    while i < module_bytes.len()
        invariant
            i <= module_bytes@.len(),
            total as nat == total_len(module_bytes@, i as int),
        decreases module_bytes@.len() - i,
    {
        proof {
            lemma_total_len_monotone(module_bytes@, i + 1, module_bytes@.len() as int);
        }
        let n = module_bytes[i].len() as u64;
        match total.checked_add(n) {
            Some(t) => total = t,
            None => return Err(ExecutionError::from_kind(ExecutionErrorKind::InvariantViolation)),
        }
        i += 1;
    }
    Ok(total)
}

/// The number of bytes in the first `n` modules.
pub open spec fn total_len(m: Seq<Vec<u8>>, n: int) -> nat
    decreases n,
{
    if n <= 0 {
        0
    } else {
        total_len(m, n - 1) + m[n - 1]@.len()
    }
}

proof fn lemma_total_len_monotone(m: Seq<Vec<u8>>, a: int, b: int)
    requires
        0 <= a <= b,
    ensures
        total_len(m, a) <= total_len(m, b),
    decreases b - a,
{
    if a < b {
        lemma_total_len_monotone(m, a, b - 1);
    }
}

} // verus!
