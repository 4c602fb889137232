//! How long parts of the search take, for the user to see.
use vstd::prelude::*;
use crate::search::thread_state::ThreadLocalSearch;

verus! {

/// `std::time::Instant`, a moment on a clock that never goes back.
#[verifier::external_type_specification]
#[verifier::external_body]
pub struct ExInstant(std::time::Instant);

/// `Instant::now` is the present moment. Nothing is claimed of it.
pub assume_specification[ std::time::Instant::now ]() -> std::time::Instant;

/// `Instant::elapsed`, in nanoseconds, of which the low 64 bits are taken.
/// Nothing is claimed of the result: it is what the clock of the machine says.
#[verifier::external_body]
pub(crate) fn nanos_since(moment: &std::time::Instant) -> u64 {
    moment.elapsed().as_nanos() as u64
}

/// Nanoseconds spent in parts of the search.
#[derive(Clone, Copy, Debug, PartialEq, Eq, Structural)]
pub struct Spent {
    pub bookns: u64,
    pub ttns: u64,
    pub singns: u64,
    pub evalns: u64,
    pub probcutns: u64,
}

/// What the first `n` searches have spent together, behind `bookns` for the
/// book.
pub open spec fn total_spent(bookns: u64, locals: Seq<ThreadLocalSearch>, n: int) -> Spent
    decreases n,
{
    if n <= 0 {
        Spent { bookns, ttns: 0, singns: 0, evalns: 0, probcutns: 0 }
    } else {
        let s = total_spent(bookns, locals, n - 1);
        let l = locals[n - 1];
        Spent {
            bookns,
            ttns: vstd::wrapping::u64_specs::wrapping_add(s.ttns, l.time_in_tt_probe_ns),
            singns: vstd::wrapping::u64_specs::wrapping_add(s.singns, l.time_in_singular_ext_ns),
            evalns: vstd::wrapping::u64_specs::wrapping_add(s.evalns, l.time_in_static_eval_ns),
            probcutns: vstd::wrapping::u64_specs::wrapping_add(s.probcutns, l.time_in_probcut_ns),
        }
    }
}

/// Adds up what the searches have spent.
pub fn sum_spent(bookns: u64, locals: &Vec<ThreadLocalSearch>) -> (r: Spent)
    ensures
        r == total_spent(bookns, locals@, locals@.len() as int),
{
    let mut s = Spent { bookns, ttns: 0, singns: 0, evalns: 0, probcutns: 0 };
    let mut i: usize = 0;
    while i < locals.len()
        invariant
            i <= locals@.len(),
            s == total_spent(bookns, locals@, i as int),
        decreases locals@.len() - i,
    {
        s = Spent {
            bookns,
            ttns: s.ttns.wrapping_add(locals[i].time_in_tt_probe_ns),
            singns: s.singns.wrapping_add(locals[i].time_in_singular_ext_ns),
            evalns: s.evalns.wrapping_add(locals[i].time_in_static_eval_ns),
            probcutns: s.probcutns.wrapping_add(locals[i].time_in_probcut_ns),
        };
        i += 1;
    }
    s
}

} // verus!
