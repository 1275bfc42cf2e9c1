//! Ready-made simulators to try the policies on.

use crate::gerador::sortear;
use crate::invariantes::lemma_nucleos_ociosos;
use crate::modelo::ModeloSistema;
use crate::politica::AlgoritmoEscalonamento;
use crate::processo::{EstadoProcesso, ModeloProcesso, Processo};
use crate::recurso::{Recurso, Recursos};
use crate::sistema::{estado_inicial, Sistema};
use vstd::prelude::*;

verus! {

/// The size of the memory blocks that the examples ask for, in megabytes.
pub const BLOCO_MEMORIA: u32 = 1024;

/// A record as it stands in a queue before the first tick: ready, arrived
/// at tick zero, with all of its time left and nothing held.
pub open spec fn novo_processo(
    id: u32,
    tempo: u32,
    prioridade: i32,
    necessarios: Map<Recurso, u32>,
) -> ModeloProcesso {
    ModeloProcesso {
        id,
        prioridade,
        tempo_total: tempo,
        tempo_restante: tempo,
        tempo_chegada: 0,
        estado: EstadoProcesso::Pronto,
        alocados: Map::empty(),
        necessarios,
    }
}

/// A demand for `n` blocks of memory and nothing else.
pub open spec fn so_memoria(n: u32) -> Map<Recurso, u32> {
    Map::<Recurso, u32>::empty().insert(Recurso::Memoria(BLOCO_MEMORIA), n)
}

/// A demand for `n` blocks of memory and `q` units of `r`.
pub open spec fn memoria_e(n: u32, r: Recurso, q: u32) -> Map<Recurso, u32> {
    so_memoria(n).insert(r, q)
}

/// The ready queue of [`exemplo_round_robin`]: four records of priority
/// one, the `i`-th with `2 * i` ticks, each asking for one block of memory.
pub open spec fn fila_round_robin() -> Seq<ModeloProcesso> {
    Seq::new(4, |i: int| novo_processo((i + 1) as u32, (2 * (i + 1)) as u32, 1, so_memoria(1)))
}

/// The priorities of the records of [`exemplo_prioridade`], in queue order.
pub open spec fn prioridades_exemplo() -> Seq<i32> {
    seq![3, 1, 4, 2]
}

/// The ready queue of [`exemplo_prioridade`]: four records of four ticks
/// with the priorities [`prioridades_exemplo`], each asking for one block
/// of memory.
pub open spec fn fila_prioridade() -> Seq<ModeloProcesso> {
    Seq::new(4, |i: int| novo_processo((i + 1) as u32, 4, prioridades_exemplo()[i], so_memoria(1)))
}

/// The ledger of [`exemplo_deadlock`]: one printer and one scanner.
pub open spec fn recursos_escassos() -> Map<Recurso, u32> {
    Map::<Recurso, u32>::empty().insert(Recurso::Impressora, 1).insert(Recurso::Scanner, 1).insert(
        Recurso::Disco,
        3,
    ).insert(Recurso::Memoria(BLOCO_MEMORIA), 8)
}

/// The demand of both records of [`exemplo_deadlock`]: the printer and the
/// scanner.
pub open spec fn impressora_e_scanner() -> Map<Recurso, u32> {
    Map::<Recurso, u32>::empty().insert(Recurso::Impressora, 1).insert(Recurso::Scanner, 1)
}

/// The ready queue of [`exemplo_deadlock`].
pub open spec fn fila_deadlock() -> Seq<ModeloProcesso> {
    seq![
        novo_processo(1, 5, 1, impressora_e_scanner()),
        novo_processo(2, 5, 1, impressora_e_scanner()),
    ]
}

/// The ready queue of [`exemplo_complexo`].
pub open spec fn fila_complexa() -> Seq<ModeloProcesso> {
    seq![
        novo_processo(1, 6, 2, memoria_e(2, Recurso::Disco, 1)),
        novo_processo(2, 4, 1, memoria_e(1, Recurso::Impressora, 1)),
        novo_processo(3, 8, 3, memoria_e(4, Recurso::Scanner, 1)),
        novo_processo(4, 3, 2, so_memoria(1)),
    ]
}

/// The ready queue of [`exemplo_multinucleo_com`]: one record of priority
/// one for each entry of `tempos`, numbered from one, each asking for one
/// block of memory.
pub open spec fn fila_multinucleo(tempos: Seq<u32>) -> Seq<ModeloProcesso> {
    Seq::new(tempos.len(), |i: int| novo_processo((i + 1) as u32, tempos[i], 1, so_memoria(1)))
}

/// A new simulator with the given ready queue.
pub open spec fn com_fila(inicial: ModeloSistema, fila: Seq<ModeloProcesso>) -> ModeloSistema {
    ModeloSistema { prontos: fila, ..inicial }
}

fn novo_sistema(num_nucleos: u32, quantum: u32, algoritmo: AlgoritmoEscalonamento) -> (s: Sistema)
    requires
        num_nucleos > 0,
        quantum > 0,
    ensures
        s.wf(),
        s@ == estado_inicial(num_nucleos, quantum, algoritmo),
{
    Sistema::new(num_nucleos, quantum, algoritmo).unwrap()
}

/// Two cores under `RoundRobin` with a quantum of three, and the ready
/// queue [`fila_round_robin`].
pub fn exemplo_round_robin() -> (s: Sistema)
    ensures
        s.wf(),
        s@ == com_fila(estado_inicial(2, 3, AlgoritmoEscalonamento::RoundRobin), fila_round_robin()),
{
    let mut sistema = novo_sistema(2, 3, AlgoritmoEscalonamento::RoundRobin);
    let ghost inicial = sistema@;
    let mut i: u32 = 1;
    assert(sistema@.prontos =~= fila_round_robin().take(0));
    while i <= 4
        invariant
            1 <= i <= 5,
            sistema.wf(),
            inicial.tempo == 0,
            sistema@ == com_fila(inicial, fila_round_robin().take(i - 1)),
        decreases 5 - i,
    {
        let p = Processo::new(i, i * 2, 1).necessita_recurso(Recurso::Memoria(BLOCO_MEMORIA), 1);
        let ghost m = p@;
        sistema.adicionar_processo(p);
        assert(fila_round_robin()[i - 1] == m);
        assert(fila_round_robin().take(i as int) =~= fila_round_robin().take(i - 1).push(m));
        assert(sistema@.prontos =~= fila_round_robin().take(i as int));
        i += 1;
    }
    assert(fila_round_robin().take(4) =~= fila_round_robin());
    sistema
}

/// Two cores under `Prioridade`, and the ready queue [`fila_prioridade`].
pub fn exemplo_prioridade() -> (s: Sistema)
    ensures
        s.wf(),
        s@ == com_fila(estado_inicial(2, 3, AlgoritmoEscalonamento::Prioridade), fila_prioridade()),
{
    let mut sistema = novo_sistema(2, 3, AlgoritmoEscalonamento::Prioridade);
    let ghost inicial = sistema@;
    let prioridades: [i32; 4] = [3, 1, 4, 2];
    let mut i: u32 = 0;
    assert(sistema@.prontos =~= fila_prioridade().take(0));
    while i < 4
        invariant
            i <= 4,
            prioridades@ == prioridades_exemplo(),
            sistema.wf(),
            inicial.tempo == 0,
            sistema@ == com_fila(inicial, fila_prioridade().take(i as int)),
        decreases 4 - i,
    {
        let p = Processo::new(i + 1, 4, prioridades[i as usize]).necessita_recurso(
            Recurso::Memoria(BLOCO_MEMORIA),
            1,
        );
        let ghost m = p@;
        sistema.adicionar_processo(p);
        assert(fila_prioridade()[i as int] == m);
        assert(fila_prioridade().take(i + 1) =~= fila_prioridade().take(i as int).push(m));
        assert(sistema@.prontos =~= fila_prioridade().take(i + 1));
        i += 1;
    }
    assert(fila_prioridade().take(4) =~= fila_prioridade());
    sistema
}

/// Two cores under `RoundRobin` over the ledger [`recursos_escassos`], and
/// two records that both demand the printer and the scanner. As each
/// demand is granted whole or not at all, one of them runs while the other
/// waits.
pub fn exemplo_deadlock() -> (s: Sistema)
    ensures
        s.wf(),
        s@ == (ModeloSistema {
            disponiveis: recursos_escassos(),
            prontos: fila_deadlock(),
            ..estado_inicial(2, 3, AlgoritmoEscalonamento::RoundRobin)
        }),
{
    let mut sistema = novo_sistema(2, 3, AlgoritmoEscalonamento::RoundRobin);
    let ghost inicial = sistema@;
    let mut recursos = Recursos::new();
    recursos.insert(Recurso::Impressora, 1);
    recursos.insert(Recurso::Scanner, 1);
    recursos.insert(Recurso::Disco, 3);
    recursos.insert(Recurso::Memoria(BLOCO_MEMORIA), 8);
    sistema.recursos_disponiveis = recursos;
    proof {
        assert forall|r: Recurso| #[trigger] sistema@.capacidade(r) <= u32::MAX by {
            lemma_nucleos_ociosos(sistema@.nucleos, r);
        }
    }
    sistema.adicionar_processo(
        Processo::new(1, 5, 1).necessita_recurso(Recurso::Impressora, 1).necessita_recurso(
            Recurso::Scanner,
            1,
        ),
    );
    sistema.adicionar_processo(
        Processo::new(2, 5, 1).necessita_recurso(Recurso::Scanner, 1).necessita_recurso(
            Recurso::Impressora,
            1,
        ),
    );
    proof {
        assert(Map::<Recurso, u32>::empty().insert(Recurso::Scanner, 1).insert(
            Recurso::Impressora,
            1,
        ) =~= impressora_e_scanner());
        assert(sistema@.prontos =~= fila_deadlock());
    }
    sistema
}

/// Four cores under `ShortestJobFirst`, and one record for each entry of
/// `tempos`, with that many ticks.
pub fn exemplo_multinucleo_com(tempos: &Vec<u32>) -> (s: Sistema)
    requires
        tempos@.len() < u32::MAX,
    ensures
        s.wf(),
        s@ == com_fila(
            estado_inicial(4, 2, AlgoritmoEscalonamento::ShortestJobFirst),
            fila_multinucleo(tempos@),
        ),
{
    let mut sistema = novo_sistema(4, 2, AlgoritmoEscalonamento::ShortestJobFirst);
    let ghost inicial = sistema@;
    let mut i: usize = 0;
    assert(sistema@.prontos =~= fila_multinucleo(tempos@).take(0));
    while i < tempos.len()
        invariant
            i <= tempos@.len(),
            tempos@.len() < u32::MAX,
            sistema.wf(),
            inicial.tempo == 0,
            sistema@ == com_fila(inicial, fila_multinucleo(tempos@).take(i as int)),
        decreases tempos@.len() - i,
    {
        let p = Processo::new((i + 1) as u32, tempos[i], 1).necessita_recurso(
            Recurso::Memoria(BLOCO_MEMORIA),
            1,
        );
        let ghost m = p@;
        sistema.adicionar_processo(p);
        assert(fila_multinucleo(tempos@)[i as int] == m);
        assert(fila_multinucleo(tempos@).take(i + 1) =~= fila_multinucleo(tempos@).take(
            i as int,
        ).push(m));
        assert(sistema@.prontos =~= fila_multinucleo(tempos@).take(i + 1));
        i += 1;
    }
    assert(fila_multinucleo(tempos@).take(tempos@.len() as int) =~= fila_multinucleo(tempos@));
    sistema
}

/// All of `tempos` lie between one and nine.
pub open spec fn tempos_sorteados(tempos: Seq<u32>) -> bool {
    forall|i: int| 0 <= i < tempos.len() ==> 1 <= #[trigger] tempos[i] < 10
}

/// Four cores under `ShortestJobFirst`, and eight records whose ticks are
/// drawn at random, each between one and nine.
pub fn exemplo_multinucleo() -> (s: Sistema)
    ensures
        s.wf(),
        exists|tempos: Seq<u32>|
            tempos.len() == 8 && tempos_sorteados(tempos) && s@ == com_fila(
                estado_inicial(4, 2, AlgoritmoEscalonamento::ShortestJobFirst),
                #[trigger] fila_multinucleo(tempos),
            ),
{
    let mut tempos: Vec<u32> = Vec::new();
    let mut i: u32 = 1;
    while i <= 8
        invariant
            1 <= i <= 9,
            tempos@.len() == i - 1,
            tempos_sorteados(tempos@),
        decreases 9 - i,
    {
        tempos.push(sortear(1, 10));
        i += 1;
    }
    exemplo_multinucleo_com(&tempos)
}

/// Three cores under `RoundRobin` with a quantum of four, and the ready
/// queue [`fila_complexa`], whose records ask for several kinds at once.
pub fn exemplo_complexo() -> (s: Sistema)
    ensures
        s.wf(),
        s@ == com_fila(estado_inicial(3, 4, AlgoritmoEscalonamento::RoundRobin), fila_complexa()),
{
    let mut sistema = novo_sistema(3, 4, AlgoritmoEscalonamento::RoundRobin);
    sistema.adicionar_processo(
        Processo::new(1, 6, 2).necessita_recurso(
            Recurso::Memoria(BLOCO_MEMORIA),
            2,
        ).necessita_recurso(Recurso::Disco, 1),
    );
    sistema.adicionar_processo(
        Processo::new(2, 4, 1).necessita_recurso(
            Recurso::Memoria(BLOCO_MEMORIA),
            1,
        ).necessita_recurso(Recurso::Impressora, 1),
    );
    sistema.adicionar_processo(
        Processo::new(3, 8, 3).necessita_recurso(
            Recurso::Memoria(BLOCO_MEMORIA),
            4,
        ).necessita_recurso(Recurso::Scanner, 1),
    );
    sistema.adicionar_processo(
        Processo::new(4, 3, 2).necessita_recurso(Recurso::Memoria(BLOCO_MEMORIA), 1),
    );
    assert(sistema@.prontos =~= fila_complexa());
    sistema
}

} // verus!
