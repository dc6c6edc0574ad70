//! How a large directory tree is removed.

use crate::util::order;
use vstd::prelude::*;

verus! {

/// From more files than this on, several threads remove them.
pub const PARALLEL_FROM: usize = 10_000;

/// How many threads remove files: as many as there are processors, at least one and at most 16;
/// four where their number is not known.
pub open spec fn removers(cpus: Option<usize>) -> int {
    match cpus {
        None => 4,
        Some(n) => if n < 1 {
            1
        } else if n > 16 {
            16
        } else {
            n as int
        },
    }
}

/// How many files each thread removes; `None` where one thread removes all of them.
pub fn removal_chunk(files: usize, cpus: Option<usize>) -> (r: Option<usize>)
    ensures
        r is Some <==> files > PARALLEL_FROM && removers(cpus) > 1,
        r is Some ==> r->0 == (files + removers(cpus) - 1) / removers(cpus),
{
    let n: usize = match cpus {
        None => 4,
        Some(n) => if n < 1 {
            1
        } else if n > 16 {
            16
        } else {
            n
        },
    };
    if files > PARALLEL_FROM && n > 1 {
        let whole: usize = files / n;
        assert(whole < files) by (nonlinear_arith)
            requires
                whole == files / n,
                n > 1,
                files > 0,
        ;
        let chunk: usize = if files % n == 0 {
            whole
        } else {
            whole + 1
        };
        proof {
            lemma_round_up(files as int, n as int);
        }
        Some(chunk)
    } else {
        None
    }
}

proof fn lemma_round_up(files: int, n: int)
    requires
        files >= 0,
        1 < n <= 16,
    ensures
        (files + n - 1) / n == (if files % n == 0 {
            files / n
        } else {
            files / n + 1
        }),
{
    let q = files / n;
    let m = files % n;
    vstd::arithmetic::div_mod::lemma_fundamental_div_mod(files, n);
    if m == 0 {
        vstd::arithmetic::div_mod::lemma_fundamental_div_mod_converse(
            files + n - 1,
            n,
            q,
            n - 1,
        );
    } else {
        assert(n * (q + 1) == n * q + n) by (nonlinear_arith);
        vstd::arithmetic::div_mod::lemma_fundamental_div_mod_converse(
            files + n - 1,
            n,
            q + 1,
            m - 1,
        );
    }
}

/// Law: so many threads remove all files, each at most its chunk.
pub proof fn law_chunks_cover_all_files(files: nat, n: nat)
    requires
        n >= 1,
    ensures
        ((files + n - 1) / (n as int)) * n >= files,
{
    let q = (files + n - 1) / (n as int);
    let m = (files + n - 1) % (n as int);
    vstd::arithmetic::div_mod::lemma_fundamental_div_mod(files + n - 1, n as int);
    assert(n * q == q * n) by (nonlinear_arith);
    assert(m < n);
}

/// Directory `a` is removed before directory `b`: it lies deeper, or as deep and stands earlier.
pub open spec fn removed_before(depths: Seq<usize>, a: usize, b: usize) -> bool {
    depths[a as int] > depths[b as int] || (depths[a as int] == depths[b as int] && a < b)
}

/// The numbers of the directories in the order in which they are removed: the deepest first.
pub fn deepest_first(depths: &[usize]) -> (r: Vec<usize>)
    ensures
        order::arrangement(r@, depths.len() as int),
        forall|i: int, j: int|
            0 <= i < j < r.len() ==> removed_before(depths@, #[trigger] r[i], #[trigger] r[j]),
{
    let mut out: Vec<usize> = Vec::new();
    let mut k: usize = 0;
    while k < depths.len()
        invariant
            k <= depths.len(),
            order::arrangement(out@, k as int),
            forall|i: int, j: int|
                0 <= i < j < out.len() ==> removed_before(
                    depths@,
                    #[trigger] out[i],
                    #[trigger] out[j],
                ),
        decreases depths.len() - k,
    {
        let mut p: usize = out.len();
        while p > 0 && depths[out[p - 1]] < depths[k]
            invariant
                p <= out.len(),
                k < depths.len(),
                order::arrangement(out@, k as int),
                forall|i: int| p <= i < out.len() ==> removed_before(depths@, k, #[trigger] out[i]),
            decreases p,
        {
            p -= 1;
        }
        proof {
            assert forall|i: int| 0 <= i < p implies removed_before(
                depths@,
                #[trigger] out@[i],
                k,
            ) by {
                if i < p - 1 {
                    assert(removed_before(depths@, out@[i], out@[p - 1]));
                }
            }
        }
        let ghost before = out@;
        out.insert(p, k);
        assert(out@ =~= before.insert(p as int, k));
        proof {
            order::lemma_arrangement_insert(before, p as int, k);
        }
        assert forall|i: int, j: int| 0 <= i < j < out@.len() implies removed_before(
            depths@,
            #[trigger] out@[i],
            #[trigger] out@[j],
        ) by {
            let a = if i < p {
                i
            } else {
                i - 1
            };
            let b = if j < p {
                j
            } else {
                j - 1
            };
            if i != p {
                assert(out@[i] == before[a]);
            }
            if j != p {
                assert(out@[j] == before[b]);
            }
        }
        k += 1;
    }
    out
}

/// Law: as many threads remove files as there are processors, at least one and at most sixteen; four
/// where their number is not known.
pub proof fn law_threads_that_remove(cpus: usize)
    ensures
        1 <= cpus <= 16 ==> removers(Some(cpus)) == cpus,
        cpus == 0 ==> removers(Some(cpus)) == 1,
        cpus > 16 ==> removers(Some(cpus)) == 16,
        removers(None) == 4,
{
}

/// Law: a directory is removed after every directory that lies deeper.
pub proof fn law_deepest_directories_first(depths: Seq<usize>, order: Seq<usize>, i: int, j: int)
    requires
        forall|i: int, j: int|
            0 <= i < j < order.len() ==> removed_before(
                depths,
                #[trigger] order[i],
                #[trigger] order[j],
            ),
        0 <= i < order.len(),
        0 <= j < order.len(),
        depths[order[i] as int] > depths[order[j] as int],
    ensures
        i < j,
{
    if j < i {
        assert(removed_before(depths, order[j], order[i]));
    }
}

} // verus!
