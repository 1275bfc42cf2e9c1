//! Proofs that every stage of a tick keeps the state valid and leaves the
//! capacity of every resource kind as it was.

use crate::modelo::{aptos, creditado_todos, inaptos, soma_nucleos, soma_processos, ModeloSistema};
use crate::politica::{escolha, lemma_escolha_existe};
use crate::processo::{retido, EstadoProcesso, ModeloNucleo, ModeloProcesso};
use crate::recurso::{cabe, creditado, quantidade, Recurso};
use vstd::prelude::*;

verus! {

/// Records that hold nothing hold nothing together.
pub proof fn lemma_soma_vazia(ps: Seq<ModeloProcesso>, r: Recurso)
    requires
        forall|i: int| 0 <= i < ps.len() ==> (#[trigger] ps[i]).alocados == Map::<Recurso, u32>::empty(),
    ensures
        soma_processos(ps, r) == 0,
    decreases ps.len(),
{
    if ps.len() > 0 {
        assert(ps[ps.len() - 1].alocados == Map::<Recurso, u32>::empty());
        assert forall|i: int| 0 <= i < ps.drop_last().len() implies (#[trigger] ps.drop_last()[i]).alocados
            == Map::<Recurso, u32>::empty() by {
            assert(ps.drop_last()[i] == ps[i]);
        }
        lemma_soma_vazia(ps.drop_last(), r);
    }
}

/// Idle cores hold nothing.
pub proof fn lemma_nucleos_ociosos(ns: Seq<ModeloNucleo>, r: Recurso)
    requires
        forall|i: int| 0 <= i < ns.len() ==> (#[trigger] ns[i]).processo_atual is None,
    ensures
        soma_nucleos(ns, r) == 0,
    decreases ns.len(),
{
    if ns.len() > 0 {
        assert(ns[ns.len() - 1].processo_atual is None);
        assert forall|i: int| 0 <= i < ns.drop_last().len() implies (#[trigger] ns.drop_last()[i]).processo_atual is None by {
            assert(ns.drop_last()[i] == ns[i]);
        }
        lemma_nucleos_ociosos(ns.drop_last(), r);
    }
}

/// The first records of a sequence hold no more than all of them.
pub proof fn lemma_soma_prefixo(ps: Seq<ModeloProcesso>, j: int, r: Recurso)
    requires
        0 <= j <= ps.len(),
    ensures
        soma_processos(ps.take(j), r) <= soma_processos(ps, r),
    decreases ps.len() - j,
{
    if j < ps.len() {
        lemma_soma_prefixo(ps, j + 1, r);
        assert(ps.take(j + 1).drop_last() =~= ps.take(j));
    } else {
        assert(ps.take(j) =~= ps);
    }
}

/// What one more record at the end adds to the sum.
pub proof fn lemma_soma_processos_push(ps: Seq<ModeloProcesso>, p: ModeloProcesso, r: Recurso)
    ensures
        soma_processos(ps.push(p), r) == soma_processos(ps, r) + quantidade(p.alocados, r),
{
    assert(ps.push(p).drop_last() =~= ps);
}

/// Replacing one core changes the sum by the difference of what the two
/// hold.
pub proof fn lemma_soma_nucleos_update(ns: Seq<ModeloNucleo>, i: int, n: ModeloNucleo, r: Recurso)
    requires
        0 <= i < ns.len(),
    ensures
        soma_nucleos(ns.update(i, n), r) + retido(ns[i].processo_atual, r) == soma_nucleos(ns, r)
            + retido(n.processo_atual, r),
    decreases ns.len(),
{
    if i == ns.len() - 1 {
        assert(ns.update(i, n).drop_last() =~= ns.drop_last());
    } else {
        lemma_soma_nucleos_update(ns.drop_last(), i, n, r);
        assert(ns.update(i, n).drop_last() =~= ns.drop_last().update(i, n));
    }
}

/// Putting back what records hold raises the free count by what they hold
/// together, where that overflows nothing.
pub proof fn lemma_creditado_todos(disponivel: Map<Recurso, u32>, ps: Seq<ModeloProcesso>, r: Recurso)
    requires
        quantidade(disponivel, r) + soma_processos(ps, r) <= u32::MAX,
    ensures
        quantidade(creditado_todos(disponivel, ps), r) == quantidade(disponivel, r)
            + soma_processos(ps, r),
    decreases ps.len(),
{
    if ps.len() > 0 {
        lemma_creditado_todos(disponivel, ps.drop_last(), r);
    }
}

/// Records that hold nothing leave the ledger as it is.
pub proof fn lemma_creditado_vazio(disponivel: Map<Recurso, u32>)
    ensures
        creditado(disponivel, Map::<Recurso, u32>::empty()) == disponivel,
{
    assert(creditado(disponivel, Map::<Recurso, u32>::empty()) =~= disponivel);
}

/// The cores of `ns`, advanced, together with the concluded and the
/// preempted hold what the cores of `ns` held.
pub proof fn lemma_avanco_soma(s: ModeloSistema, ns: Seq<ModeloNucleo>, r: Recurso)
    ensures
        soma_nucleos(ns, r) == soma_nucleos(s.nucleos_avancados(ns), r) + soma_processos(
            s.concluidos_em(ns),
            r,
        ) + soma_processos(s.preemptados_em(ns), r),
    decreases ns.len(),
{
    if ns.len() > 0 {
        let antes = ns.drop_last();
        lemma_avanco_soma(s, antes, r);
        assert(s.nucleos_avancados(ns).drop_last() =~= s.nucleos_avancados(antes));
        match ns.last().processo_atual {
            Some(p) => {
                if s.avanco(p) is Conclui {
                    lemma_soma_processos_push(s.concluidos_em(antes), p, r);
                } else if s.avanco(p) is Preempta {
                    lemma_soma_processos_push(
                        s.preemptados_em(antes),
                        ModeloSistema::avancado(p, EstadoProcesso::Pronto),
                        r,
                    );
                }
            },
            None => {},
        }
    }
}

/// A preempted record is valid and ready, and arrived no later than now.
pub proof fn lemma_preemptados(s: ModeloSistema, ns: Seq<ModeloNucleo>)
    requires
        forall|i: int|
            0 <= i < ns.len() ==> match (#[trigger] ns[i]).processo_atual {
                Some(p) => p.em_execucao(s.tempo),
                None => true,
            },
    ensures
        forall|j: int|
            0 <= j < s.preemptados_em(ns).len() ==> {
                let p = #[trigger] s.preemptados_em(ns)[j];
                p.valido() && p.estado == EstadoProcesso::Pronto && p.tempo_chegada <= s.tempo
            },
    decreases ns.len(),
{
    if ns.len() > 0 {
        let antes = ns.drop_last();
        assert forall|i: int| 0 <= i < antes.len() implies match (#[trigger] antes[i]).processo_atual {
            Some(p) => p.em_execucao(s.tempo),
            None => true,
        } by {
            assert(antes[i] == ns[i]);
        }
        lemma_preemptados(s, antes);
        assert(ns[ns.len() - 1] == ns.last());
    }
}

/// Every record of [`aptos`] and of [`inaptos`] is a record of `bs`.
pub proof fn lemma_aptos_de(disponivel: Map<Recurso, u32>, bs: Seq<ModeloProcesso>)
    ensures
        forall|j: int|
            0 <= j < aptos(disponivel, bs).len() ==> bs.contains(#[trigger] aptos(disponivel, bs)[j]),
        forall|j: int|
            0 <= j < inaptos(disponivel, bs).len() ==> bs.contains(
                #[trigger] inaptos(disponivel, bs)[j],
            ),
    decreases bs.len(),
{
    if bs.len() > 0 {
        let antes = bs.drop_last();
        lemma_aptos_de(disponivel, antes);
        let a = aptos(disponivel, bs);
        let b = inaptos(disponivel, bs);
        assert(bs[bs.len() - 1] == bs.last());
        assert forall|j: int| 0 <= j < a.len() implies bs.contains(#[trigger] a[j]) by {
            if j < aptos(disponivel, antes).len() {
                assert(antes.contains(aptos(disponivel, antes)[j]));
                let i = choose|i: int| 0 <= i < antes.len() && antes[i] == a[j];
                assert(bs[i] == a[j]);
            }
        }
        assert forall|j: int| 0 <= j < b.len() implies bs.contains(#[trigger] b[j]) by {
            if j < inaptos(disponivel, antes).len() {
                assert(antes.contains(inaptos(disponivel, antes)[j]));
                let i = choose|i: int| 0 <= i < antes.len() && antes[i] == b[j];
                assert(bs[i] == b[j]);
            }
        }
    }
}

/// Recovery keeps the state valid and every capacity as it was.
pub proof fn lemma_recuperacao(s: ModeloSistema)
    requires
        s.valido(),
    ensures
        s.fase_recuperacao().0.valido(),
        forall|r: Recurso| #[trigger] s.fase_recuperacao().0.capacidade(r) == s.capacidade(r),
        s.fase_recuperacao().0.tempo == s.tempo,
{
    let t = s.fase_recuperacao().0;
    if s.em_recuperacao() && s.prontos.len() > 0 {
        assert(s.prontos[0].alocados == Map::<Recurso, u32>::empty());
        lemma_creditado_vazio(s.disponiveis);
        assert forall|i: int| 0 <= i < t.prontos.len() implies (#[trigger] t.prontos[i]).em_espera(
            EstadoProcesso::Pronto,
            t.tempo,
        ) by {
            assert(t.prontos[i] == s.prontos[i + 1]);
        }
        assert forall|r: Recurso| #[trigger] t.capacidade(r) == s.capacidade(r) by {
            lemma_soma_vazia(t.prontos, r);
            lemma_soma_vazia(s.prontos, r);
        }
    }
}

/// Retiring and preempting keeps the state valid and every capacity as it
/// was.
pub proof fn lemma_avanco(s: ModeloSistema)
    requires
        s.valido(),
    ensures
        s.fase_avanco().0.valido(),
        forall|r: Recurso| #[trigger] s.fase_avanco().0.capacidade(r) == s.capacidade(r),
        s.fase_avanco().0.tempo == s.tempo,
{
    let t = s.fase_avanco().0;
    let concluidos = s.concluidos_em(s.nucleos);
    let preemptados = s.preemptados_em(s.nucleos);
    lemma_preemptados(s, s.nucleos);
    assert forall|i: int| 0 <= i < t.nucleos.len() implies match (#[trigger] t.nucleos[i]).processo_atual {
        Some(p) => p.em_execucao(t.tempo),
        None => true,
    } by {
        assert(t.nucleos[i] == s.nucleo_avancado(s.nucleos[i]));
    }
    assert forall|i: int| 0 <= i < t.prontos.len() implies (#[trigger] t.prontos[i]).em_espera(
        EstadoProcesso::Pronto,
        t.tempo,
    ) by {
        if i < s.prontos.len() {
            assert(t.prontos[i] == s.prontos[i]);
        } else {
            let j = i - s.prontos.len();
            assert(t.prontos[i] == preemptados[j].sem_alocacao());
        }
    }
    assert forall|r: Recurso| #[trigger] t.capacidade(r) == s.capacidade(r) by {
        lemma_avanco_soma(s, s.nucleos, r);
        lemma_soma_vazia(t.prontos, r);
        lemma_soma_vazia(s.prontos, r);
        assert(s.capacidade(r) <= u32::MAX);
        lemma_creditado_todos(s.disponiveis, concluidos, r);
        lemma_creditado_todos(creditado_todos(s.disponiveis, concluidos), preemptados, r);
    }
    assert forall|r: Recurso| #[trigger] t.capacidade(r) <= u32::MAX by {
        assert(s.capacidade(r) <= u32::MAX);
    }
}

/// Granting a record its demand and placing it on an idle core keeps the
/// state valid and every capacity as it was.
pub proof fn lemma_inicio(s: ModeloSistema, i: int, k: int)
    requires
        s.valido(),
        0 <= i < s.nucleos.len(),
        s.nucleos[i].processo_atual is None,
        0 <= k < s.prontos.len(),
        cabe(s.prontos[k].necessarios, s.disponiveis),
    ensures
        s.com_inicio(i, k).valido(),
        forall|r: Recurso| #[trigger] s.com_inicio(i, k).capacidade(r) == s.capacidade(r),
{
    let t = s.com_inicio(i, k);
    let p = s.prontos[k];
    assert(p.em_espera(EstadoProcesso::Pronto, s.tempo));
    assert forall|j: int| 0 <= j < t.nucleos.len() implies match (#[trigger] t.nucleos[j]).processo_atual {
        Some(p) => p.em_execucao(t.tempo),
        None => true,
    } by {
        if j != i {
            assert(t.nucleos[j] == s.nucleos[j]);
        }
    }
    assert forall|j: int| 0 <= j < t.prontos.len() implies (#[trigger] t.prontos[j]).em_espera(
        EstadoProcesso::Pronto,
        t.tempo,
    ) by {
        if j < k {
            assert(t.prontos[j] == s.prontos[j]);
        } else {
            assert(t.prontos[j] == s.prontos[j + 1]);
        }
    }
    assert forall|r: Recurso| #[trigger] t.capacidade(r) == s.capacidade(r) by {
        lemma_soma_nucleos_update(s.nucleos, i, t.nucleos[i], r);
        lemma_soma_vazia(t.prontos, r);
        lemma_soma_vazia(s.prontos, r);
        if p.necessarios.dom().contains(r) {
            assert(p.necessarios[r] <= quantidade(s.disponiveis, r));
        }
    }
    assert forall|r: Recurso| #[trigger] t.capacidade(r) <= u32::MAX by {
        assert(s.capacidade(r) <= u32::MAX);
    }
}

/// Moving a ready record to the blocked set keeps the state valid and every
/// capacity as it was.
pub proof fn lemma_bloqueio(s: ModeloSistema, k: int)
    requires
        s.valido(),
        0 <= k < s.prontos.len(),
    ensures
        s.com_bloqueio(k).valido(),
        forall|r: Recurso| #[trigger] s.com_bloqueio(k).capacidade(r) == s.capacidade(r),
{
    let t = s.com_bloqueio(k);
    assert(s.prontos[k].em_espera(EstadoProcesso::Pronto, s.tempo));
    assert forall|j: int| 0 <= j < t.prontos.len() implies (#[trigger] t.prontos[j]).em_espera(
        EstadoProcesso::Pronto,
        t.tempo,
    ) by {
        if j < k {
            assert(t.prontos[j] == s.prontos[j]);
        } else {
            assert(t.prontos[j] == s.prontos[j + 1]);
        }
    }
    assert forall|j: int| 0 <= j < t.bloqueados.len() implies (#[trigger] t.bloqueados[j]).em_espera(
        EstadoProcesso::Bloqueado,
        t.tempo,
    ) by {
        if j < s.bloqueados.len() {
            assert(t.bloqueados[j] == s.bloqueados[j]);
        }
    }
    assert forall|r: Recurso| #[trigger] t.capacidade(r) == s.capacidade(r) by {
        lemma_soma_vazia(t.prontos, r);
        lemma_soma_vazia(s.prontos, r);
        lemma_soma_vazia(t.bloqueados, r);
        lemma_soma_vazia(s.bloqueados, r);
    }
    assert forall|r: Recurso| #[trigger] t.capacidade(r) <= u32::MAX by {
        assert(s.capacidade(r) <= u32::MAX);
    }
}

/// Assignment from core `i` on keeps the state valid and every capacity as
/// it was.
pub proof fn lemma_atribuicao(s: ModeloSistema, i: int)
    requires
        s.valido(),
    ensures
        s.fase_atribuicao_de(i).0.valido(),
        forall|r: Recurso| #[trigger] s.fase_atribuicao_de(i).0.capacidade(r) == s.capacidade(r),
        s.fase_atribuicao_de(i).0.tempo == s.tempo,
    decreases s.nucleos.len() - i,
{
    if 0 <= i < s.nucleos.len() {
        if s.nucleos[i].processo_atual is Some {
            lemma_atribuicao(s, i + 1);
        } else if s.prontos.len() > 0 {
            lemma_escolha_existe(s.algoritmo, s.prontos);
            let k = escolha(s.algoritmo, s.prontos).unwrap();
            if cabe(s.prontos[k].necessarios, s.disponiveis) {
                lemma_inicio(s, i, k);
                let s1 = s.com_inicio(i, k);
                lemma_atribuicao(s1, i + 1);
                let t = s.fase_atribuicao_de(i).0;
                assert forall|r: Recurso| #[trigger] t.capacidade(r) == s.capacidade(r) by {
                    assert(s1.capacidade(r) == s.capacidade(r));
                }
            } else {
                lemma_bloqueio(s, k);
            }
        }
    }
}

/// Reactivation keeps the state valid and every capacity as it was.
pub proof fn lemma_reativacao(s: ModeloSistema)
    requires
        s.valido(),
    ensures
        s.fase_reativacao().0.valido(),
        forall|r: Recurso| #[trigger] s.fase_reativacao().0.capacidade(r) == s.capacidade(r),
        s.fase_reativacao().0.tempo == s.tempo,
{
    let t = s.fase_reativacao().0;
    let voltam = aptos(s.disponiveis, s.bloqueados);
    let ficam = inaptos(s.disponiveis, s.bloqueados);
    lemma_aptos_de(s.disponiveis, s.bloqueados);
    let novos = ModeloSistema::reativados(voltam);
    assert forall|j: int| 0 <= j < t.prontos.len() implies (#[trigger] t.prontos[j]).em_espera(
        EstadoProcesso::Pronto,
        t.tempo,
    ) by {
        if j < novos.len() {
            let q = voltam[voltam.len() - 1 - j];
            assert(t.prontos[j] == q.no_estado(EstadoProcesso::Pronto));
            assert(s.bloqueados.contains(q));
        } else {
            assert(t.prontos[j] == s.prontos[j - novos.len()]);
        }
    }
    assert forall|j: int| 0 <= j < t.bloqueados.len() implies (#[trigger] t.bloqueados[j]).em_espera(
        EstadoProcesso::Bloqueado,
        t.tempo,
    ) by {
        assert(s.bloqueados.contains(ficam[j]));
    }
    assert forall|r: Recurso| #[trigger] t.capacidade(r) == s.capacidade(r) by {
        lemma_soma_vazia(t.prontos, r);
        lemma_soma_vazia(s.prontos, r);
        lemma_soma_vazia(t.bloqueados, r);
        lemma_soma_vazia(s.bloqueados, r);
    }
    assert forall|r: Recurso| #[trigger] t.capacidade(r) <= u32::MAX by {
        assert(s.capacidade(r) <= u32::MAX);
    }
}

/// Advancing the clock keeps the state valid and every capacity as it was.
pub proof fn lemma_relogio(s: ModeloSistema)
    requires
        s.valido(),
        s.tempo < u32::MAX,
    ensures
        s.com_relogio().valido(),
        forall|r: Recurso| #[trigger] s.com_relogio().capacidade(r) == s.capacidade(r),
        s.com_relogio().tempo == s.tempo + 1,
{
    let t = s.com_relogio();
    assert forall|i: int| 0 <= i < t.nucleos.len() implies match (#[trigger] t.nucleos[i]).processo_atual {
        Some(p) => p.em_execucao(t.tempo),
        None => true,
    } by {
        assert(t.nucleos[i] == s.nucleos[i]);
    }
    assert forall|r: Recurso| #[trigger] t.capacidade(r) <= u32::MAX by {
        assert(s.capacidade(r) <= u32::MAX);
    }
}

/// A tick keeps the state valid and every capacity as it was, and advances
/// the clock by one.
pub proof fn lemma_passo(s: ModeloSistema)
    requires
        s.valido(),
        s.tempo < u32::MAX,
    ensures
        s.passo().0.valido(),
        forall|r: Recurso| #[trigger] s.passo().0.capacidade(r) == s.capacidade(r),
        s.passo().0.tempo == s.tempo + 1,
{
    let s0 = s.fase_recuperacao().0;
    lemma_recuperacao(s);
    let s1 = s0.fase_avanco().0;
    lemma_avanco(s0);
    let s2 = s1.fase_atribuicao().0;
    lemma_atribuicao(s1, 0);
    let s3 = s2.fase_reativacao().0;
    lemma_reativacao(s2);
    lemma_relogio(s3);
    assert forall|r: Recurso| #[trigger] s.passo().0.capacidade(r) == s.capacidade(r) by {
        assert(s0.capacidade(r) == s.capacidade(r));
        assert(s1.capacidade(r) == s0.capacidade(r));
        assert(s2.capacidade(r) == s1.capacidade(r));
        assert(s3.capacidade(r) == s2.capacidade(r));
        assert(s3.com_relogio().capacidade(r) == s3.capacidade(r));
    }
}

} // verus!
