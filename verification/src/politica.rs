//! The selection policies: which record of the ready queue is next.
//!
//! A policy only points at a position of the queue; it removes nothing.

use crate::processo::{modelos, ModeloProcesso, Processo};
use std::collections::VecDeque;
use vstd::prelude::*;

verus! {

/// The policy by which the next record is chosen.
#[derive(Debug, Clone, Copy, PartialEq, Eq, Structural)]
pub enum AlgoritmoEscalonamento {
    /// The head of the queue; running records are preempted at quantum
    /// boundaries.
    RoundRobin,
    /// The most urgent record, the last of them where several are equally
    /// urgent.
    Prioridade,
    /// The record with the least time left, the last of them where several
    /// have equally little.
    ShortestJobFirst,
}

/// Position `k` of `fila` is the one that `algoritmo` picks.
pub open spec fn escolhido(
    algoritmo: AlgoritmoEscalonamento,
    fila: Seq<ModeloProcesso>,
    k: int,
) -> bool {
    &&& 0 <= k < fila.len()
    &&& match algoritmo {
        AlgoritmoEscalonamento::RoundRobin => k == 0,
        AlgoritmoEscalonamento::Prioridade => {
            &&& forall|j: int|
                0 <= j < fila.len() ==> (#[trigger] fila[j]).prioridade <= fila[k].prioridade
            &&& forall|j: int|
                k < j < fila.len() ==> (#[trigger] fila[j]).prioridade < fila[k].prioridade
        },
        AlgoritmoEscalonamento::ShortestJobFirst => {
            &&& forall|j: int|
                0 <= j < fila.len() ==> (#[trigger] fila[j]).tempo_restante
                    >= fila[k].tempo_restante
            &&& forall|j: int|
                k < j < fila.len() ==> (#[trigger] fila[j]).tempo_restante > fila[k].tempo_restante
        },
    }
}

/// The position that `algoritmo` picks in `fila`; none in an empty queue.
pub open spec fn escolha(algoritmo: AlgoritmoEscalonamento, fila: Seq<ModeloProcesso>) -> Option<
    int,
> {
    if fila.len() == 0 {
        None
    } else {
        Some(choose|k: int| escolhido(algoritmo, fila, k))
    }
}

/// A policy picks at most one position.
pub proof fn lemma_escolhido_unico(
    algoritmo: AlgoritmoEscalonamento,
    fila: Seq<ModeloProcesso>,
    a: int,
    b: int,
)
    requires
        escolhido(algoritmo, fila, a),
        escolhido(algoritmo, fila, b),
    ensures
        a == b,
{
    if a < b {
        assert(fila[b].prioridade <= fila[a].prioridade);
        assert(fila[b].tempo_restante >= fila[a].tempo_restante);
    } else if b < a {
        assert(fila[a].prioridade <= fila[b].prioridade);
        assert(fila[a].tempo_restante >= fila[b].tempo_restante);
    }
}

/// In a queue that is not empty every policy picks a position, and
/// [`escolha`] is that position.
pub proof fn lemma_escolha_existe(algoritmo: AlgoritmoEscalonamento, fila: Seq<ModeloProcesso>)
    requires
        fila.len() > 0,
    ensures
        escolha(algoritmo, fila) is Some,
        escolhido(algoritmo, fila, escolha(algoritmo, fila).unwrap()),
    decreases fila.len(),
{
    let n = fila.len() as int;
    if n == 1 || algoritmo == AlgoritmoEscalonamento::RoundRobin {
        assert(escolhido(algoritmo, fila, 0));
    } else {
        let antes = fila.drop_last();
        lemma_escolha_existe(algoritmo, antes);
        let k = escolha(algoritmo, antes).unwrap();
        assert(antes[k] == fila[k]);
        let ultimo = match algoritmo {
            AlgoritmoEscalonamento::Prioridade => fila[n - 1].prioridade >= fila[k].prioridade,
            _ => fila[n - 1].tempo_restante <= fila[k].tempo_restante,
        };
        let w = if ultimo {
            n - 1
        } else {
            k
        };
        assert forall|j: int| 0 <= j < n - 1 implies (#[trigger] fila[j]).prioridade
            == antes[j].prioridade && fila[j].tempo_restante == antes[j].tempo_restante by {}
        assert(escolhido(algoritmo, fila, w)) by {
            match algoritmo {
                AlgoritmoEscalonamento::Prioridade => {
                    assert forall|j: int| 0 <= j < n implies (#[trigger] fila[j]).prioridade
                        <= fila[w].prioridade by {
                        if j < n - 1 {
                            assert(antes[j].prioridade <= antes[k].prioridade);
                        }
                    }
                    assert forall|j: int| w < j < n implies (#[trigger] fila[j]).prioridade
                        < fila[w].prioridade by {
                        if j < n - 1 {
                            assert(antes[j].prioridade < antes[k].prioridade);
                        }
                    }
                },
                _ => {
                    assert forall|j: int| 0 <= j < n implies (#[trigger] fila[j]).tempo_restante
                        >= fila[w].tempo_restante by {
                        if j < n - 1 {
                            assert(antes[j].tempo_restante >= antes[k].tempo_restante);
                        }
                    }
                    assert forall|j: int| w < j < n implies (#[trigger] fila[j]).tempo_restante
                        > fila[w].tempo_restante by {
                        if j < n - 1 {
                            assert(antes[j].tempo_restante > antes[k].tempo_restante);
                        }
                    }
                },
            }
        }
    }
}

/// The position of the record that `algoritmo` picks in `fila`.
pub fn escolher(algoritmo: AlgoritmoEscalonamento, fila: &VecDeque<Processo>) -> (r: Option<usize>)
    ensures
        match r {
            Some(k) => escolha(algoritmo, modelos(fila@)) == Some(k as int) && escolhido(
                algoritmo,
                modelos(fila@),
                k as int,
            ),
            None => fila@.len() == 0 && escolha(algoritmo, modelos(fila@)).is_none(),
        },
{
    let n = fila.len();
    if n == 0 {
        return None;
    }
    let ghost m = modelos(fila@);
    let mut k: usize = 0;
    match algoritmo {
        AlgoritmoEscalonamento::RoundRobin => {},
        AlgoritmoEscalonamento::Prioridade => {
            let mut j: usize = 1;
            while j < n
                invariant
                    n == fila@.len(),
                    m == modelos(fila@),
                    1 <= j <= n,
                    k < j,
                    forall|i: int| 0 <= i < j ==> (#[trigger] m[i]).prioridade <= m[k as int].prioridade,
                    forall|i: int| k < i < j ==> (#[trigger] m[i]).prioridade < m[k as int].prioridade,
                decreases n - j,
            {
                if fila[j].prioridade >= fila[k].prioridade {
                    k = j;
                }
                j += 1;
            }
        },
        AlgoritmoEscalonamento::ShortestJobFirst => {
            let mut j: usize = 1;
            while j < n
                invariant
                    n == fila@.len(),
                    m == modelos(fila@),
                    1 <= j <= n,
                    k < j,
                    forall|i: int|
                        0 <= i < j ==> (#[trigger] m[i]).tempo_restante >= m[k as int].tempo_restante,
                    forall|i: int|
                        k < i < j ==> (#[trigger] m[i]).tempo_restante > m[k as int].tempo_restante,
                decreases n - j,
            {
                if fila[j].tempo_restante <= fila[k].tempo_restante {
                    k = j;
                }
                j += 1;
            }
        },
    }
    proof {
        assert(escolhido(algoritmo, m, k as int));
        lemma_escolha_existe(algoritmo, m);
        lemma_escolhido_unico(algoritmo, m, k as int, escolha(algoritmo, m).unwrap());
    }
    Some(k)
}

} // verus!
