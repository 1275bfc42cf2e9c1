//! What holds of the simulator as a whole, stated over the model and
//! proved from its definition.

use crate::evento::Evento;
use crate::invariantes::{lemma_nucleos_ociosos, lemma_passo};
use crate::modelo::ModeloSistema;
use crate::politica::{escolha, lemma_escolha_existe, AlgoritmoEscalonamento};
use crate::processo::{contido, EstadoProcesso, ModeloNucleo, ModeloProcesso};
use crate::recurso::{cabe, quantidade, Recurso};
use crate::seguranca::{em_deadlock, lemma_nada_a_terminar};
use crate::sistema::{estado_inicial, recursos_iniciais};
use vstd::prelude::*;

verus! {

/// Conservation over one tick: the tick leaves the state valid, and the
/// capacity of every kind, what is free of it together with what all the
/// live records hold of it, is what it was.
pub proof fn lei_conservacao(s: ModeloSistema, r: Recurso)
    requires
        s.valido(),
        s.tempo < u32::MAX,
    ensures
        s.passo().0.valido(),
        s.passo().0.capacidade(r) == s.capacidade(r),
{
    lemma_passo(s);
}

/// Conservation over a run: after any number of ticks the state is valid,
/// the capacity of every kind is what it was at the start, and the clock
/// has not moved back.
pub proof fn lei_conservacao_execucao(s: ModeloSistema, passos: nat, r: Recurso)
    requires
        s.valido(),
        s.tempo + passos <= u32::MAX,
    ensures
        s.execucao(passos).0.valido(),
        s.execucao(passos).0.capacidade(r) == s.capacidade(r),
        s.tempo <= s.execucao(passos).0.tempo <= s.tempo + passos,
    decreases passos,
{
    if passos > 0 && !s.ocioso() {
        lemma_passo(s);
        lei_conservacao_execucao(s.passo().0, (passos - 1) as nat, r);
    }
}

/// In a new simulator nothing is held: the capacity of every kind is what
/// the initial ledger has free of it.
pub proof fn lei_capacidade_inicial(
    num_nucleos: u32,
    quantum: u32,
    algoritmo: AlgoritmoEscalonamento,
    r: Recurso,
)
    ensures
        estado_inicial(num_nucleos, quantum, algoritmo).capacidade(r) == quantidade(
            recursos_iniciais(),
            r,
        ),
{
    let s = estado_inicial(num_nucleos, quantum, algoritmo);
    lemma_nucleos_ociosos(s.nucleos, r);
}

/// Allocation subset: in a valid state every record, on a core, ready or
/// blocked, holds only kinds that it demands, and of none more than it
/// demands. A record on a core holds exactly its demand; a waiting record
/// holds nothing.
pub proof fn lei_alocacao_contida(s: ModeloSistema)
    requires
        s.valido(),
    ensures
        forall|i: int|
            0 <= i < s.nucleos.len() && (#[trigger] s.nucleos[i]).processo_atual is Some ==> {
                let p = s.nucleos[i].processo_atual.unwrap();
                contido(p.alocados, p.necessarios) && p.alocados == p.necessarios
            },
        forall|i: int|
            0 <= i < s.prontos.len() ==> contido(
                (#[trigger] s.prontos[i]).alocados,
                s.prontos[i].necessarios,
            ) && s.prontos[i].alocados == Map::<Recurso, u32>::empty(),
        forall|i: int|
            0 <= i < s.bloqueados.len() ==> contido(
                (#[trigger] s.bloqueados[i]).alocados,
                s.bloqueados[i].necessarios,
            ) && s.bloqueados[i].alocados == Map::<Recurso, u32>::empty(),
{
    assert forall|i: int|
        0 <= i < s.nucleos.len() && (#[trigger] s.nucleos[i]).processo_atual is Some implies {
        let p = s.nucleos[i].processo_atual.unwrap();
        contido(p.alocados, p.necessarios) && p.alocados == p.necessarios
    } by {
        assert(s.nucleos[i].processo_atual.unwrap().em_execucao(s.tempo));
    }
    assert forall|i: int| 0 <= i < s.prontos.len() implies contido(
        (#[trigger] s.prontos[i]).alocados,
        s.prontos[i].necessarios,
    ) && s.prontos[i].alocados == Map::<Recurso, u32>::empty() by {
        assert(s.prontos[i].em_espera(EstadoProcesso::Pronto, s.tempo));
    }
    assert forall|i: int| 0 <= i < s.bloqueados.len() implies contido(
        (#[trigger] s.bloqueados[i]).alocados,
        s.bloqueados[i].necessarios,
    ) && s.bloqueados[i].alocados == Map::<Recurso, u32>::empty() by {
        assert(s.bloqueados[i].em_espera(EstadoProcesso::Bloqueado, s.tempo));
    }
}

/// A record with the identifier `id` is on a core with time left, the
/// policy is `RoundRobin`, and the ticks since the record arrived are a
/// multiple of the quantum.
pub open spec fn preempcao_devida(s: ModeloSistema, id: u32) -> bool {
    &&& s.algoritmo == AlgoritmoEscalonamento::RoundRobin
    &&& exists|i: int|
        0 <= i < s.nucleos.len() && (#[trigger] s.nucleos[i]).processo_atual is Some && {
            let p = s.nucleos[i].processo_atual.unwrap();
            p.id == id && p.tempo_restante > 0 && (s.tempo - p.tempo_chegada) % (
            s.quantum as int) == 0
        }
}

/// The core `n` holds a record `id` that the tick of `s` preempts.
spec fn preemptavel(s: ModeloSistema, n: ModeloNucleo, id: u32) -> bool {
    n.processo_atual is Some && n.processo_atual.unwrap().id == id && s.avanco(
        n.processo_atual.unwrap(),
    ) is Preempta
}

spec fn tem_preemptavel(s: ModeloSistema, ns: Seq<ModeloNucleo>, id: u32) -> bool {
    exists|i: int| 0 <= i < ns.len() && preemptavel(s, #[trigger] ns[i], id)
}

spec fn tem_id(ps: Seq<ModeloProcesso>, id: u32) -> bool {
    exists|j: int| 0 <= j < ps.len() && (#[trigger] ps[j]).id == id
}

/// A record `id` is among the preempted exactly if a core holds a record
/// `id` that the tick preempts.
proof fn lemma_preemptados_sao(s: ModeloSistema, ns: Seq<ModeloNucleo>, id: u32)
    ensures
        tem_id(s.preemptados_em(ns), id) == tem_preemptavel(s, ns, id),
    decreases ns.len(),
{
    if ns.len() > 0 {
        let antes = ns.drop_last();
        let u = ns.len() - 1;
        lemma_preemptados_sao(s, antes, id);
        let pa = s.preemptados_em(antes);
        let pn = s.preemptados_em(ns);
        assert(ns.last() == ns[u]);
        if tem_id(pn, id) {
            let j = choose|j: int| 0 <= j < pn.len() && (#[trigger] pn[j]).id == id;
            if j < pa.len() {
                assert(pa[j] == pn[j]);
                assert(tem_id(pa, id));
                let i = choose|i: int| 0 <= i < antes.len() && preemptavel(s, #[trigger] antes[i], id);
                assert(ns[i] == antes[i]);
            } else {
                assert(preemptavel(s, ns[u], id));
            }
            assert(tem_preemptavel(s, ns, id));
        }
        if tem_preemptavel(s, ns, id) {
            let i = choose|i: int| 0 <= i < ns.len() && preemptavel(s, #[trigger] ns[i], id);
            if i < u {
                assert(antes[i] == ns[i]);
                assert(tem_preemptavel(s, antes, id));
                let j = choose|j: int| 0 <= j < pa.len() && (#[trigger] pa[j]).id == id;
                assert(pn[j] == pa[j]);
            } else {
                assert(pn[pn.len() - 1].id == id);
            }
            assert(tem_id(pn, id));
        }
    }
}

/// Assignment reports no preemption.
proof fn lemma_atribuicao_eventos(s: ModeloSistema, i: int, alvo: Evento)
    requires
        alvo is Preemptado,
    ensures
        !s.fase_atribuicao_de(i).1.contains(alvo),
    decreases s.nucleos.len() - i,
{
    if 0 <= i < s.nucleos.len() {
        if s.nucleos[i].processo_atual is Some {
            lemma_atribuicao_eventos(s, i + 1, alvo);
        } else {
            match escolha(s.algoritmo, s.prontos) {
                None => {},
                Some(k) => {
                    if cabe(s.prontos[k].necessarios, s.disponiveis) {
                        let prox = s.com_inicio(i, k);
                        lemma_atribuicao_eventos(prox, i + 1, alvo);
                        let e = prox.fase_atribuicao_de(i + 1).1;
                        let todos = s.fase_atribuicao_de(i).1;
                        if todos.contains(alvo) {
                            let j = choose|j: int| 0 <= j < todos.len() && todos[j] == alvo;
                            assert(j > 0);
                            assert(todos[j] == e[j - 1]);
                            assert(e.contains(alvo));
                        }
                    }
                },
            }
        }
    }
}

/// An event is in a concatenation exactly if it is in one of the parts.
proof fn lemma_contem_soma(a: Seq<Evento>, b: Seq<Evento>, e: Evento)
    ensures
        (a + b).contains(e) == (a.contains(e) || b.contains(e)),
{
    if (a + b).contains(e) {
        let x = choose|x: int| 0 <= x < (a + b).len() && (a + b)[x] == e;
        if x < a.len() {
            assert(a[x] == e);
        } else {
            assert(b[x - a.len()] == e);
        }
    }
    if a.contains(e) {
        let x = choose|x: int| 0 <= x < a.len() && a[x] == e;
        assert((a + b)[x] == e);
    }
    if b.contains(e) {
        let x = choose|x: int| 0 <= x < b.len() && b[x] == e;
        assert((a + b)[a.len() + x] == e);
    }
}

/// Retiring and preempting reports the preemption of `id` exactly if a
/// record `id` is among the preempted.
proof fn lemma_avanco_eventos(s: ModeloSistema, id: u32)
    ensures
        s.fase_avanco().1.contains(Evento::Preemptado { tempo: s.tempo, processo: id }) == tem_id(
            s.preemptados_em(s.nucleos),
            id,
        ),
{
    let alvo = Evento::Preemptado { tempo: s.tempo, processo: id };
    let concluidos = s.concluidos_em(s.nucleos);
    let preemptados = s.preemptados_em(s.nucleos);
    let ec = s.eventos_conclusao(concluidos);
    let ep = s.eventos_preempcao(preemptados);
    lemma_contem_soma(ec, ep, alvo);
    if ec.contains(alvo) {
        let x = choose|x: int| 0 <= x < ec.len() && ec[x] == alvo;
        assert(ec[x] is Concluido);
    }
    if ep.contains(alvo) {
        let x = choose|x: int| 0 <= x < ep.len() && ep[x] == alvo;
        assert(preemptados[x].id == id);
    }
    if tem_id(preemptados, id) {
        let j = choose|j: int| 0 <= j < preemptados.len() && (#[trigger] preemptados[j]).id == id;
        assert(ep[j] == alvo);
    }
}

/// Preemption timing: a tick reports the preemption of the record `id`
/// exactly if, when the tick starts, the policy is `RoundRobin` and a
/// record `id` is on a core with time left and the ticks since its arrival
/// are a multiple of the quantum. A record without time left concludes
/// instead, and under the other policies nothing is ever preempted.
pub proof fn lei_preempcao(s: ModeloSistema, id: u32)
    ensures
        s.passo().1.contains(Evento::Preemptado { tempo: s.tempo, processo: id })
            <==> preempcao_devida(s, id),
{
    let alvo = Evento::Preemptado { tempo: s.tempo, processo: id };
    let (s0, e0) = s.fase_recuperacao();
    let (s1, e1) = s0.fase_avanco();
    let (s2, e2) = s1.fase_atribuicao();
    let (s3, e3) = s2.fase_reativacao();
    assert(s.passo().1 == e0 + e1 + e2 + e3);
    assert(s0.nucleos == s.nucleos && s0.tempo == s.tempo && s0.quantum == s.quantum
        && s0.algoritmo == s.algoritmo);
    lemma_contem_soma(e0 + e1 + e2, e3, alvo);
    lemma_contem_soma(e0 + e1, e2, alvo);
    lemma_contem_soma(e0, e1, alvo);
    if e0.contains(alvo) {
        let x = choose|x: int| 0 <= x < e0.len() && e0[x] == alvo;
        assert(e0[x] is DeadlockRecuperado);
    }
    lemma_atribuicao_eventos(s1, 0, alvo);
    if e3.contains(alvo) {
        let x = choose|x: int| 0 <= x < e3.len() && e3[x] == alvo;
        assert(e3[x] is Desbloqueado);
    }
    lemma_avanco_eventos(s0, id);
    lemma_preemptados_sao(s0, s0.nucleos, id);
    if tem_preemptavel(s0, s0.nucleos, id) {
        let i = choose|i: int| 0 <= i < s0.nucleos.len() && preemptavel(s0, #[trigger] s0.nucleos[i], id);
        assert(s.nucleos[i].processo_atual is Some);
        assert(preempcao_devida(s, id));
    }
    if preempcao_devida(s, id) {
        let i = choose|i: int|
            0 <= i < s.nucleos.len() && (#[trigger] s.nucleos[i]).processo_atual is Some && {
                let p = s.nucleos[i].processo_atual.unwrap();
                p.id == id && p.tempo_restante > 0 && (s.tempo - p.tempo_chegada) % (
                s.quantum as int) == 0
            };
        assert(preemptavel(s0, s0.nucleos[i], id));
    }
}

/// Policy selection: in a queue that is not empty every policy picks a
/// record of the queue. `RoundRobin` picks the head. `Prioridade` picks a
/// record whose priority is the greatest in the queue, and the last such
/// record. `ShortestJobFirst` picks a record whose time left is the least
/// in the queue, and the last such record.
pub proof fn lei_selecao(algoritmo: AlgoritmoEscalonamento, fila: Seq<ModeloProcesso>)
    requires
        fila.len() > 0,
    ensures
        escolha(algoritmo, fila) is Some,
        0 <= escolha(algoritmo, fila).unwrap() < fila.len(),
        algoritmo == AlgoritmoEscalonamento::RoundRobin ==> escolha(algoritmo, fila).unwrap() == 0,
        algoritmo == AlgoritmoEscalonamento::Prioridade ==> forall|j: int|
            0 <= j < fila.len() ==> (#[trigger] fila[j]).prioridade
                <= fila[escolha(algoritmo, fila).unwrap()].prioridade && (j > escolha(
                algoritmo,
                fila,
            ).unwrap() ==> fila[j].prioridade < fila[escolha(
                algoritmo,
                fila,
            ).unwrap()].prioridade),
        algoritmo == AlgoritmoEscalonamento::ShortestJobFirst ==> forall|j: int|
            0 <= j < fila.len() ==> (#[trigger] fila[j]).tempo_restante
                >= fila[escolha(algoritmo, fila).unwrap()].tempo_restante && (j > escolha(
                algoritmo,
                fila,
            ).unwrap() ==> fila[j].tempo_restante > fila[escolha(
                algoritmo,
                fila,
            ).unwrap()].tempo_restante),
{
    lemma_escolha_existe(algoritmo, fila);
}

/// The safety check is a function of the ledger and of the waiting records
/// alone: two states that agree on both get the same answer, and so does
/// one state that is asked twice. With no waiting record the answer is
/// that there is no deadlock.
pub proof fn lei_verificacao(a: ModeloSistema, b: ModeloSistema)
    requires
        a.disponiveis == b.disponiveis,
        a.em_analise() == b.em_analise(),
    ensures
        em_deadlock(a.disponiveis, a.em_analise()) == em_deadlock(b.disponiveis, b.em_analise()),
        a.em_analise().len() == 0 ==> !em_deadlock(a.disponiveis, a.em_analise()),
{
    if a.em_analise().len() == 0 {
        lemma_nada_a_terminar(a.disponiveis, a.em_analise());
    }
}

} // verus!
