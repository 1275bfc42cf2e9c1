//! Workloads: records made from drawn or entered numbers.
//!
//! Every record is made by a function that takes the numbers as arguments
//! ([`processo_sorteado`], [`processo_manual`]); the functions that draw
//! them only hand them on.

use crate::examples::BLOCO_MEMORIA;
use crate::modelo::ModeloSistema;
use crate::processo::{EstadoProcesso, ModeloProcesso, Processo};
use crate::recurso::Recurso;
use crate::sistema::{submetido, Sistema};
use rand::Rng;
use vstd::prelude::*;

verus! {

/// The numbers from which a random record is made.
#[derive(Debug, Clone, Copy, PartialEq, Eq)]
pub struct Sorteio {
    pub tempo_total: u32,
    pub prioridade: u32,
    pub memoria: u32,
    pub disco: u32,
    pub impressora: u32,
    pub scanner: u32,
}

impl Sorteio {
    /// The ranges from which [`sortear_processo`] draws: one to nineteen
    /// ticks, a priority from one to nine, one to three blocks of memory,
    /// at most one disk, and neither printer nor scanner.
    pub open spec fn nos_limites(self) -> bool {
        &&& 1 <= self.tempo_total < 20
        &&& 1 <= self.prioridade < 10
        &&& 1 <= self.memoria < 4
        &&& self.disco < 2
        &&& self.impressora == 0
        &&& self.scanner == 0
    }
}

/// The demand `m`, with `q` units of `r` added where `q` is not zero.
pub open spec fn com_demanda(m: Map<Recurso, u32>, r: Recurso, q: u32) -> Map<Recurso, u32> {
    if q > 0 {
        m.insert(r, q)
    } else {
        m
    }
}

/// The demand of a record made from the draw `s`: each kind of which more
/// than zero was drawn.
pub open spec fn demanda_sorteada(s: Sorteio) -> Map<Recurso, u32> {
    com_demanda(
        com_demanda(
            com_demanda(
                com_demanda(Map::empty(), Recurso::Memoria(BLOCO_MEMORIA), s.memoria),
                Recurso::Disco,
                s.disco,
            ),
            Recurso::Impressora,
            s.impressora,
        ),
        Recurso::Scanner,
        s.scanner,
    )
}

/// The record `id` made from the draw `s`.
pub open spec fn modelo_sorteado(id: u32, s: Sorteio) -> ModeloProcesso {
    ModeloProcesso {
        id,
        prioridade: s.prioridade as i32,
        tempo_total: s.tempo_total,
        tempo_restante: s.tempo_total,
        tempo_chegada: 0,
        estado: EstadoProcesso::Pronto,
        alocados: Map::empty(),
        necessarios: demanda_sorteada(s),
    }
}

/// A number drawn from `min..max` by the generator of the calling thread:
/// `rand::thread_rng().gen_range(min..max)`. All that is claimed of it is
/// that it lies in the range; two draws need not agree. The range must not
/// be empty, or `gen_range` panics.
#[verifier::external_body]
pub(crate) fn sortear(min: u32, max: u32) -> (n: u32)
    requires
        min < max,
    ensures
        min <= n < max,
{
    rand::thread_rng().gen_range(min..max)
}

fn com_recurso(p: Processo, recurso: Recurso, quantidade: u32) -> (q: Processo)
    requires
        p.wf(),
        p@.alocados == Map::<Recurso, u32>::empty(),
    ensures
        q.wf(),
        q@ == (ModeloProcesso {
            necessarios: com_demanda(p@.necessarios, recurso, quantidade),
            ..p@
        }),
{
    if quantidade > 0 {
        p.necessita_recurso(recurso, quantidade)
    } else {
        p
    }
}

/// The record `id` made from the draw `s`: it demands each kind of which
/// more than zero was drawn, and nothing else.
pub fn processo_sorteado(id: u32, s: Sorteio) -> (p: Processo)
    requires
        s.prioridade <= i32::MAX,
    ensures
        p.wf(),
        p@ == modelo_sorteado(id, s),
{
    let p = Processo::new(id, s.tempo_total, s.prioridade as i32);
    let p = com_recurso(p, Recurso::Memoria(BLOCO_MEMORIA), s.memoria);
    let p = com_recurso(p, Recurso::Disco, s.disco);
    let p = com_recurso(p, Recurso::Impressora, s.impressora);
    com_recurso(p, Recurso::Scanner, s.scanner)
}

/// Draws the numbers for one record, each from its range.
pub fn sortear_processo() -> (s: Sorteio)
    ensures
        s.nos_limites(),
{
    let tempo_total = sortear(1, 20);
    let prioridade = sortear(1, 10);
    let memoria = sortear(1, 4);
    let disco = sortear(0, 2);
    let impressora = sortear(0, 1);
    let scanner = sortear(0, 1);
    Sorteio { tempo_total, prioridade, memoria, disco, impressora, scanner }
}

/// Counts one more record in `contador` and submits a record with that
/// number, made from a fresh draw.
pub fn gerar_processo_aleatorio(sistema: &mut Sistema, contador: &mut u32)
    requires
        old(sistema).wf(),
        *old(contador) < u32::MAX,
    ensures
        final(sistema).wf(),
        *final(contador) == *old(contador) + 1,
        exists|s: Sorteio|
            s.nos_limites() && final(sistema)@ == (ModeloSistema {
                prontos: old(sistema)@.prontos.push(
                    submetido(#[trigger] modelo_sorteado(*final(contador), s), old(sistema)@.tempo),
                ),
                ..old(sistema)@
            }),
        forall|r: Recurso| #[trigger] final(sistema)@.capacidade(r) == old(sistema)@.capacidade(r),
{
    *contador += 1;
    let s = sortear_processo();
    let p = processo_sorteado(*contador, s);
    sistema.adicionar_processo(p);
}

/// The demand of a record entered by hand: `memoria` blocks of memory, or
/// nothing where `memoria` is zero.
pub open spec fn demanda_manual(memoria: u32) -> Map<Recurso, u32> {
    com_demanda(Map::empty(), Recurso::Memoria(BLOCO_MEMORIA), memoria)
}

/// The record `id` with the ticks, the priority and the blocks of memory
/// that were entered by hand.
pub fn processo_manual(id: u32, tempo: u32, prioridade: i32, memoria: u32) -> (p: Processo)
    ensures
        p.wf(),
        p@ == (ModeloProcesso {
            id,
            prioridade,
            tempo_total: tempo,
            tempo_restante: tempo,
            tempo_chegada: 0,
            estado: EstadoProcesso::Pronto,
            alocados: Map::empty(),
            necessarios: demanda_manual(memoria),
        }),
{
    let p = Processo::new(id, tempo, prioridade);
    com_recurso(p, Recurso::Memoria(BLOCO_MEMORIA), memoria)
}

/// Counts one more record in `contador` and submits the record with that
/// number that was entered by hand.
pub fn adicionar_processo_manual(
    sistema: &mut Sistema,
    contador: &mut u32,
    tempo: u32,
    prioridade: i32,
    memoria: u32,
)
    requires
        old(sistema).wf(),
        *old(contador) < u32::MAX,
    ensures
        final(sistema).wf(),
        *final(contador) == *old(contador) + 1,
        final(sistema)@ == (ModeloSistema {
            prontos: old(sistema)@.prontos.push(
                ModeloProcesso {
                    id: *final(contador),
                    prioridade,
                    tempo_total: tempo,
                    tempo_restante: tempo,
                    tempo_chegada: old(sistema)@.tempo,
                    estado: EstadoProcesso::Pronto,
                    alocados: Map::empty(),
                    necessarios: demanda_manual(memoria),
                },
            ),
            ..old(sistema)@
        }),
{
    *contador += 1;
    let p = processo_manual(*contador, tempo, prioridade, memoria);
    sistema.adicionar_processo(p);
}

} // verus!
