//! The tick: the stages of [`ModeloSistema::passo`], carried out on the
//! simulator.

use crate::evento::Evento;
use crate::invariantes::{
    lemma_atribuicao, lemma_avanco, lemma_avanco_soma, lemma_bloqueio, lemma_creditado_todos,
    lemma_inicio, lemma_passo, lemma_preemptados, lemma_reativacao, lemma_recuperacao,
    lemma_relogio, lemma_soma_prefixo,
};
use crate::modelo::{
    aptos, creditado_todos, inaptos, soma_processos, ModeloSistema, PERIODO_VERIFICACAO,
};
use crate::politica::{escolher, AlgoritmoEscalonamento};
use crate::processo::{modelos, EstadoProcesso, Processo};
use crate::recurso::{credito_cabe, quantidade, Recurso};
use crate::sistema::Sistema;
use std::collections::VecDeque;
use vstd::prelude::*;

verus! {

impl Sistema {
    /// Recovery: see [`ModeloSistema::fase_recuperacao`].
    fn fase_recuperacao(&mut self, eventos: &mut Vec<Evento>)
        requires
            old(self).wf(),
        ensures
            final(self).wf(),
            final(self)@ == old(self)@.fase_recuperacao().0,
            final(eventos)@ == old(eventos)@ + old(self)@.fase_recuperacao().1,
    {
        let ghost s = self@;
        proof {
            lemma_recuperacao(s);
        }
        if self.tempo_global % PERIODO_VERIFICACAO == 0 && self.verificar_deadlock() {
            match self.processos.pop_front() {
                Some(vitima) => {
                    assert(vitima@ == s.prontos[0]);
                    assert(vitima@.alocados == Map::<Recurso, u32>::empty());
                    self.recursos_disponiveis.liberar(&vitima.recursos_alocados);
                    eventos.push(
                        Evento::DeadlockRecuperado {
                            tempo: self.tempo_global,
                            vitima: Some(vitima.id),
                        },
                    );
                    assert(self@.prontos =~= s.prontos.drop_first());
                },
                None => {
                    eventos.push(
                        Evento::DeadlockRecuperado { tempo: self.tempo_global, vitima: None },
                    );
                },
            }
            assert(self@ == s.fase_recuperacao().0);
            assert(eventos@ =~= old(eventos)@ + s.fase_recuperacao().1);
        } else {
            assert(eventos@ =~= old(eventos)@ + s.fase_recuperacao().1);
        }
    }

    /// Advances every record on a core by one tick and takes the concluded
    /// and the preempted off their cores. Nothing else changes; what the
    /// records hold stays with them.
    fn avancar_nucleos(&mut self) -> (r: (Vec<Processo>, VecDeque<Processo>))
        requires
            old(self).wf(),
        ensures
            final(self)@ == (ModeloSistema {
                nucleos: old(self)@.nucleos_avancados(old(self)@.nucleos),
                ..old(self)@
            }),
            final(self).processos == old(self).processos,
            final(self).processos_bloqueados == old(self).processos_bloqueados,
            final(self).recursos_disponiveis == old(self).recursos_disponiveis,
            forall|j: int|
                0 <= j < final(self).nucleos@.len() ==> (#[trigger] final(self).nucleos@[j]).tabelas_ok(),
            modelos(r.0@) == old(self)@.concluidos_em(old(self)@.nucleos),
            modelos(r.1@) == old(self)@.preemptados_em(old(self)@.nucleos),
            forall|j: int| 0 <= j < r.0@.len() ==> (#[trigger] r.0@[j]).tabelas_ok(),
            forall|j: int| 0 <= j < r.1@.len() ==> (#[trigger] r.1@[j]).tabelas_ok(),
    {
        let ghost s = self@;
        let ghost antes = *self;
        let mut concluidos: Vec<Processo> = Vec::new();
        let mut preemptados: VecDeque<Processo> = VecDeque::new();
        let n = self.nucleos.len();
        let mut i: usize = 0;
        assert(s.nucleos.take(0) =~= Seq::empty());
        while i < n
            invariant
                antes.wf(),
                s == antes@,
                n == self.nucleos@.len(),
                n == s.nucleos.len(),
                i <= n,
                self.processos == antes.processos,
                self.processos_bloqueados == antes.processos_bloqueados,
                self.recursos_disponiveis == antes.recursos_disponiveis,
                self.algoritmo == antes.algoritmo,
                self.tempo_global == antes.tempo_global,
                self.quantum == antes.quantum,
                self.taxa_chegada_processos == antes.taxa_chegada_processos,
                forall|j: int|
                    0 <= j < i ==> (#[trigger] self.nucleos@[j])@ == s.nucleo_avancado(s.nucleos[j]),
                forall|j: int| i <= j < n ==> #[trigger] self.nucleos@[j] == antes.nucleos@[j],
                forall|j: int| 0 <= j < n ==> (#[trigger] self.nucleos@[j]).tabelas_ok(),
                modelos(concluidos@) == s.concluidos_em(s.nucleos.take(i as int)),
                modelos(preemptados@) == s.preemptados_em(s.nucleos.take(i as int)),
                forall|j: int| 0 <= j < concluidos@.len() ==> (#[trigger] concluidos@[j]).tabelas_ok(),
                forall|j: int|
                    0 <= j < preemptados@.len() ==> (#[trigger] preemptados@[j]).tabelas_ok(),
            decreases n - i,
        {
            let ghost c0 = concluidos@;
            let ghost p0 = preemptados@;
            assert(s.nucleos.take(i + 1).drop_last() =~= s.nucleos.take(i as int));
            assert(s.nucleos.take(i + 1).last() == s.nucleos[i as int]);
            assert(self.nucleos@[i as int] == antes.nucleos@[i as int]);
            assert(antes.nucleos@[i as int].tabelas_ok());
            assert(s.nucleos[i as int] == antes.nucleos@[i as int]@);
            match self.nucleos[i].processo_atual.take() {
                None => {},
                Some(p) => {
                    let mut p = p;
                    let ghost m = p@;
                    assert(m.em_execucao(s.tempo));
                    if p.tempo_restante == 0 {
                        concluidos.push(p);
                        assert(modelos(concluidos@) =~= modelos(c0).push(m));
                    } else {
                        p.tempo_restante -= 1;
                        if self.algoritmo == AlgoritmoEscalonamento::RoundRobin && (
                        self.tempo_global - p.tempo_chegada) % self.quantum == 0 {
                            p.estado = EstadoProcesso::Pronto;
                            preemptados.push_back(p);
                            assert(modelos(preemptados@) =~= modelos(p0).push(
                                ModeloSistema::avancado(m, EstadoProcesso::Pronto),
                            ));
                        } else {
                            p.estado = EstadoProcesso::Executando;
                            self.nucleos[i].processo_atual = Some(p);
                        }
                    }
                },
            }
            i += 1;
        }
        assert(s.nucleos.take(n as int) =~= s.nucleos);
        assert(self@.nucleos =~= s.nucleos_avancados(s.nucleos));
        (concluidos, preemptados)
    }

    /// Puts what each concluded record held back into the ledger and
    /// reports the conclusion. The records are then dropped.
    fn liberar_concluidos(&mut self, concluidos: &Vec<Processo>, eventos: &mut Vec<Evento>)
        requires
            old(self).recursos_disponiveis.wf(),
            forall|k: int| 0 <= k < concluidos@.len() ==> (#[trigger] concluidos@[k]).tabelas_ok(),
            forall|r: Recurso|
                quantidade(old(self)@.disponiveis, r) + #[trigger] soma_processos(
                    modelos(concluidos@),
                    r,
                ) <= u32::MAX,
        ensures
            final(self).recursos_disponiveis.wf(),
            final(self)@ == (ModeloSistema {
                disponiveis: creditado_todos(old(self)@.disponiveis, modelos(concluidos@)),
                ..old(self)@
            }),
            final(self).nucleos == old(self).nucleos,
            final(self).processos == old(self).processos,
            final(self).processos_bloqueados == old(self).processos_bloqueados,
            final(eventos)@ == old(eventos)@ + old(self)@.eventos_conclusao(modelos(concluidos@)),
    {
        let ghost s = self@;
        let ghost antes = *self;
        let ghost ev0 = eventos@;
        let ghost cs = modelos(concluidos@);
        let mut j: usize = 0;
        assert(cs.take(0) =~= Seq::empty());
        assert(eventos@ =~= ev0 + s.eventos_conclusao(cs.take(0)));
        while j < concluidos.len()
            invariant
                j <= concluidos@.len(),
                cs == modelos(concluidos@),
                s == antes@,
                forall|r: Recurso|
                    quantidade(s.disponiveis, r) + #[trigger] soma_processos(cs, r) <= u32::MAX,
                forall|k: int| 0 <= k < concluidos@.len() ==> (#[trigger] concluidos@[k]).tabelas_ok(),
                self.recursos_disponiveis.wf(),
                self.recursos_disponiveis@ == creditado_todos(s.disponiveis, cs.take(j as int)),
                eventos@ == ev0 + s.eventos_conclusao(cs.take(j as int)),
                self.nucleos == antes.nucleos,
                self.processos == antes.processos,
                self.processos_bloqueados == antes.processos_bloqueados,
                self.algoritmo == antes.algoritmo,
                self.tempo_global == antes.tempo_global,
                self.quantum == antes.quantum,
                self.taxa_chegada_processos == antes.taxa_chegada_processos,
            decreases concluidos@.len() - j,
        {
            let p = &concluidos[j];
            proof {
                let atual = self.recursos_disponiveis@;
                let devolve = p.recursos_alocados@;
                assert(cs.take(j + 1).drop_last() =~= cs.take(j as int));
                assert(cs.take(j + 1).last() == p@);
                assert forall|r: Recurso| #[trigger]
                    devolve.dom().contains(r) implies quantidade(atual, r) + devolve[r]
                    <= u32::MAX by {
                    lemma_soma_prefixo(cs, j + 1, r);
                    lemma_soma_prefixo(cs, j as int, r);
                    assert(quantidade(s.disponiveis, r) + soma_processos(cs, r) <= u32::MAX);
                    lemma_creditado_todos(s.disponiveis, cs.take(j as int), r);
                    assert(soma_processos(cs.take(j + 1), r) == soma_processos(
                        cs.take(j as int),
                        r,
                    ) + quantidade(devolve, r));
                }
                assert(credito_cabe(atual, devolve));
            }
            self.recursos_disponiveis.liberar(&p.recursos_alocados);
            eventos.push(Evento::Concluido { tempo: self.tempo_global, processo: p.id });
            assert(s.eventos_conclusao(cs.take(j + 1)) =~= s.eventos_conclusao(
                cs.take(j as int),
            ).push(Evento::Concluido { tempo: s.tempo, processo: p@.id }));
            j += 1;
        }
        assert(cs.take(j as int) =~= cs);
    }

    /// Puts what each preempted record held back into the ledger, sends the
    /// record to the back of the ready queue, holding nothing, and reports
    /// the preemption.
    fn devolver_preemptados(&mut self, preemptados: VecDeque<Processo>, eventos: &mut Vec<Evento>)
        requires
            old(self).recursos_disponiveis.wf(),
            forall|k: int|
                0 <= k < old(self).processos@.len() ==> (#[trigger] old(self).processos@[k]).tabelas_ok(),
            forall|k: int| 0 <= k < preemptados@.len() ==> (#[trigger] preemptados@[k]).tabelas_ok(),
            forall|k: int|
                0 <= k < preemptados@.len() ==> (#[trigger] modelos(preemptados@)[k]).estado
                    == EstadoProcesso::Pronto,
            forall|r: Recurso|
                quantidade(old(self)@.disponiveis, r) + #[trigger] soma_processos(
                    modelos(preemptados@),
                    r,
                ) <= u32::MAX,
        ensures
            final(self).recursos_disponiveis.wf(),
            final(self)@ == (ModeloSistema {
                disponiveis: creditado_todos(old(self)@.disponiveis, modelos(preemptados@)),
                prontos: old(self)@.prontos + ModeloSistema::devolvidos(modelos(preemptados@)),
                ..old(self)@
            }),
            final(self).nucleos == old(self).nucleos,
            final(self).processos_bloqueados == old(self).processos_bloqueados,
            forall|k: int|
                0 <= k < final(self).processos@.len() ==> (
                #[trigger] final(self).processos@[k]).tabelas_ok(),
            final(eventos)@ == old(eventos)@ + old(self)@.eventos_preempcao(modelos(preemptados@)),
    {
        let mut preemptados = preemptados;
        let ghost s = self@;
        let ghost antes = *self;
        let ghost ev0 = eventos@;
        let ghost pre0 = preemptados@;
        let ghost ps = modelos(pre0);
        let ghost mut feitos: int = 0;
        assert(ps.take(0) =~= Seq::empty());
        assert(modelos(self.processos@) =~= s.prontos + ModeloSistema::devolvidos(ps.take(0)));
        assert(eventos@ =~= ev0 + s.eventos_preempcao(ps.take(0)));
        assert(preemptados@ =~= pre0.skip(0));
        while preemptados.len() > 0
            invariant
                0 <= feitos <= pre0.len(),
                ps == modelos(pre0),
                s == antes@,
                preemptados@ == pre0.skip(feitos),
                forall|k: int| 0 <= k < pre0.len() ==> (#[trigger] pre0[k]).tabelas_ok(),
                forall|k: int| 0 <= k < ps.len() ==> (#[trigger] ps[k]).estado == EstadoProcesso::Pronto,
                forall|r: Recurso|
                    quantidade(s.disponiveis, r) + #[trigger] soma_processos(ps, r) <= u32::MAX,
                self.recursos_disponiveis.wf(),
                self.recursos_disponiveis@ == creditado_todos(s.disponiveis, ps.take(feitos)),
                eventos@ == ev0 + s.eventos_preempcao(ps.take(feitos)),
                modelos(self.processos@) == s.prontos + ModeloSistema::devolvidos(ps.take(feitos)),
                forall|k: int|
                    0 <= k < self.processos@.len() ==> (#[trigger] self.processos@[k]).tabelas_ok(),
                self.nucleos == antes.nucleos,
                self.processos_bloqueados == antes.processos_bloqueados,
                self.algoritmo == antes.algoritmo,
                self.tempo_global == antes.tempo_global,
                self.quantum == antes.quantum,
                self.taxa_chegada_processos == antes.taxa_chegada_processos,
            decreases pre0.len() - feitos,
        {
            let ghost fila = self.processos@;
            let mut p = preemptados.pop_front().unwrap();
            let ghost m = p@;
            proof {
                let atual = self.recursos_disponiveis@;
                let devolve = p.recursos_alocados@;
                assert(p == pre0[feitos]);
                assert(m == ps[feitos]);
                assert(ps.take(feitos + 1).drop_last() =~= ps.take(feitos));
                assert(ps.take(feitos + 1).last() == m);
                assert forall|r: Recurso| #[trigger]
                    devolve.dom().contains(r) implies quantidade(atual, r) + devolve[r]
                    <= u32::MAX by {
                    lemma_soma_prefixo(ps, feitos + 1, r);
                    lemma_soma_prefixo(ps, feitos, r);
                    assert(quantidade(s.disponiveis, r) + soma_processos(ps, r) <= u32::MAX);
                    lemma_creditado_todos(s.disponiveis, ps.take(feitos), r);
                    assert(soma_processos(ps.take(feitos + 1), r) == soma_processos(
                        ps.take(feitos),
                        r,
                    ) + quantidade(devolve, r));
                }
                assert(credito_cabe(atual, devolve));
            }
            self.recursos_disponiveis.liberar(&p.recursos_alocados);
            p.recursos_alocados.clear();
            p.estado = EstadoProcesso::Pronto;
            eventos.push(Evento::Preemptado { tempo: self.tempo_global, processo: p.id });
            self.processos.push_back(p);
            proof {
                assert(p@ == m.sem_alocacao());
                assert(s.eventos_preempcao(ps.take(feitos + 1)) =~= s.eventos_preempcao(
                    ps.take(feitos),
                ).push(Evento::Preemptado { tempo: s.tempo, processo: m.id }));
                assert(ModeloSistema::devolvidos(ps.take(feitos + 1))
                    =~= ModeloSistema::devolvidos(ps.take(feitos)).push(m.sem_alocacao()));
                assert(modelos(self.processos@) =~= modelos(fila).push(p@));
                assert(modelos(self.processos@) =~= s.prontos + ModeloSistema::devolvidos(
                    ps.take(feitos + 1),
                ));
                assert(preemptados@ =~= pre0.skip(feitos + 1));
                assert forall|k: int| 0 <= k < self.processos@.len() implies (
                #[trigger] self.processos@[k]).tabelas_ok() by {
                    if k < fila.len() {
                        assert(self.processos@[k] == fila[k]);
                    }
                }
                feitos = feitos + 1;
            }
        }
        assert(ps.take(feitos) =~= ps);
    }

    /// Retiring and preempting: see [`ModeloSistema::fase_avanco`].
    fn fase_avanco(&mut self, eventos: &mut Vec<Evento>)
        requires
            old(self).wf(),
        ensures
            final(self).wf(),
            final(self)@ == old(self)@.fase_avanco().0,
            final(eventos)@ == old(eventos)@ + old(self)@.fase_avanco().1,
    {
        let ghost s = self@;
        let (concluidos, preemptados) = self.avancar_nucleos();
        let ghost cs = modelos(concluidos@);
        let ghost ps = modelos(preemptados@);
        proof {
            lemma_preemptados(s, s.nucleos);
            assert forall|r: Recurso|
                quantidade(s.disponiveis, r) + #[trigger] soma_processos(cs, r) <= u32::MAX by {
                lemma_avanco_soma(s, s.nucleos, r);
                assert(s.capacidade(r) <= u32::MAX);
            }
        }
        self.liberar_concluidos(&concluidos, eventos);
        proof {
            assert forall|r: Recurso|
                quantidade(self@.disponiveis, r) + #[trigger] soma_processos(ps, r)
                    <= u32::MAX by {
                lemma_avanco_soma(s, s.nucleos, r);
                assert(s.capacidade(r) <= u32::MAX);
                lemma_creditado_todos(s.disponiveis, cs, r);
            }
        }
        self.devolver_preemptados(preemptados, eventos);
        proof {
            assert(eventos@ =~= old(eventos)@ + s.fase_avanco().1);
            assert(self@ == s.fase_avanco().0);
            lemma_avanco(s);
        }
    }

    /// Assignment: see [`ModeloSistema::fase_atribuicao`].
    fn fase_atribuicao(&mut self, eventos: &mut Vec<Evento>)
        requires
            old(self).wf(),
        ensures
            final(self).wf(),
            final(self)@ == old(self)@.fase_atribuicao().0,
            final(eventos)@ == old(eventos)@ + old(self)@.fase_atribuicao().1,
    {
        let ghost s0 = self@;
        let ghost ev0 = eventos@;
        let ghost mut feitos: Seq<Evento> = Seq::empty();
        let n = self.nucleos.len();
        let mut i: usize = 0;
        assert(eventos@ =~= ev0 + feitos);
        assert(feitos + s0.fase_atribuicao_de(0).1 =~= s0.fase_atribuicao_de(0).1);
        while i < n
            invariant
                self.wf(),
                n == self.nucleos@.len(),
                i <= n,
                eventos@ == ev0 + feitos,
                s0.fase_atribuicao_de(0).0 == self@.fase_atribuicao_de(i as int).0,
                s0.fase_atribuicao_de(0).1 == feitos + self@.fase_atribuicao_de(i as int).1,
            decreases n - i,
        {
            let ghost cur = self@;
            let ghost fila = self.processos@;
            let ghost resto = cur.fase_atribuicao_de(i as int);
            assert(cur.nucleos[i as int] == self.nucleos@[i as int]@);
            if self.nucleos[i].processo_atual.is_some() {
                i += 1;
            } else {
                match escolher(self.algoritmo, &self.processos) {
                    None => {
                        proof {
                            assert(resto == (cur, Seq::<Evento>::empty()));
                            assert(cur.fase_atribuicao_de(n as int) == (
                                cur,
                                Seq::<Evento>::empty(),
                            ));
                        }
                        i = n;
                    },
                    Some(k) => {
                        let ghost m = cur.prontos[k as int];
                        assert(m == fila[k as int]@);
                        assert(fila[k as int].tabelas_ok());
                        let cabe_agora = self.recursos_disponiveis.reservar(
                            &self.processos[k].recursos_necessarios,
                        );
                        let mut p = self.processos.remove(k).unwrap();
                        assert(p == fila[k as int]);
                        assert(self.processos@ == fila.remove(k as int));
                        proof {
                            assert(modelos(fila.remove(k as int)) =~= cur.prontos.remove(k as int));
                            assert forall|j: int| 0 <= j < self.processos@.len() implies (
                            #[trigger] self.processos@[j]).tabelas_ok() by {
                                if j < k {
                                    assert(self.processos@[j] == fila[j]);
                                } else {
                                    assert(self.processos@[j] == fila[j + 1]);
                                }
                            }
                        }
                        if cabe_agora {
                            p.recursos_alocados = p.recursos_necessarios.clone();
                            p.estado = EstadoProcesso::Executando;
                            let evento = Evento::Iniciado {
                                tempo: self.tempo_global,
                                nucleo: self.nucleos[i].id,
                                processo: p.id,
                            };
                            eventos.push(evento);
                            let ghost antigos = self.nucleos@;
                            self.nucleos[i].processo_atual = Some(p);
                            proof {
                                let prox = cur.com_inicio(i as int, k as int);
                                assert(p@ == ModeloSistema::iniciado(m));
                                assert(self@.nucleos =~= prox.nucleos);
                                assert(self@ == prox);
                                lemma_inicio(cur, i as int, k as int);
                                assert forall|j: int| 0 <= j < self.nucleos@.len() implies (
                                #[trigger] self.nucleos@[j]).tabelas_ok() by {
                                    if j != i {
                                        assert(self.nucleos@[j] == antigos[j]);
                                    }
                                }
                                let depois = prox.fase_atribuicao_de(i + 1);
                                assert(resto == (depois.0, seq![evento] + depois.1));
                                assert(feitos + (seq![evento] + depois.1) =~= feitos.push(evento)
                                    + depois.1);
                                feitos = feitos.push(evento);
                                assert(eventos@ =~= ev0 + feitos);
                            }
                            i += 1;
                        } else {
                            p.estado = EstadoProcesso::Bloqueado;
                            let evento = Evento::Bloqueado {
                                tempo: self.tempo_global,
                                processo: p.id,
                            };
                            eventos.push(evento);
                            let ghost antigos = self.processos_bloqueados@;
                            self.processos_bloqueados.push(p);
                            proof {
                                let prox = cur.com_bloqueio(k as int);
                                assert(p@ == m.no_estado(EstadoProcesso::Bloqueado));
                                assert(self@.bloqueados =~= prox.bloqueados);
                                assert(self@ == prox);
                                lemma_bloqueio(cur, k as int);
                                assert forall|j: int|
                                    0 <= j < self.processos_bloqueados@.len() implies (
                                #[trigger] self.processos_bloqueados@[j]).tabelas_ok() by {
                                    if j < antigos.len() {
                                        assert(self.processos_bloqueados@[j] == antigos[j]);
                                    }
                                }
                                assert(resto == (prox, seq![evento]));
                                assert(prox.fase_atribuicao_de(n as int) == (
                                    prox,
                                    Seq::<Evento>::empty(),
                                ));
                                assert(feitos + seq![evento] =~= feitos.push(evento)
                                    + Seq::<Evento>::empty());
                                feitos = feitos.push(evento);
                                assert(eventos@ =~= ev0 + feitos);
                            }
                            i = n;
                        }
                    },
                }
            }
        }
        proof {
            assert(self@.fase_atribuicao_de(n as int) == (self@, Seq::<Evento>::empty()));
            assert(feitos + Seq::<Evento>::empty() =~= feitos);
        }
    }

    /// Reactivation: see [`ModeloSistema::fase_reativacao`].
    fn fase_reativacao(&mut self, eventos: &mut Vec<Evento>)
        requires
            old(self).wf(),
        ensures
            final(self).wf(),
            final(self)@ == old(self)@.fase_reativacao().0,
            final(eventos)@ == old(eventos)@ + old(self)@.fase_reativacao().1,
    {
        let ghost s = self@;
        let ghost antes = *self;
        let ghost ev0 = eventos@;
        let ghost b0 = s.bloqueados;
        let ghost mut vistos: int = 0;
        let mut i: usize = 0;
        proof {
            assert(b0.take(0) =~= Seq::empty());
            assert(b0.skip(0) =~= b0);
            assert(modelos(self.processos_bloqueados@) =~= inaptos(s.disponiveis, b0.take(0))
                + b0.skip(0));
            assert(modelos(self.processos@) =~= ModeloSistema::reativados(
                aptos(s.disponiveis, b0.take(0)),
            ) + s.prontos);
            assert(eventos@ =~= ev0 + s.eventos_reativacao(aptos(s.disponiveis, b0.take(0))));
        }
        while i < self.processos_bloqueados.len()
            invariant
                antes.wf(),
                s == antes@,
                b0 == s.bloqueados,
                0 <= vistos <= b0.len(),
                i == inaptos(s.disponiveis, b0.take(vistos)).len(),
                modelos(self.processos_bloqueados@) == inaptos(s.disponiveis, b0.take(vistos))
                    + b0.skip(vistos),
                modelos(self.processos@) == ModeloSistema::reativados(
                    aptos(s.disponiveis, b0.take(vistos)),
                ) + s.prontos,
                eventos@ == ev0 + s.eventos_reativacao(aptos(s.disponiveis, b0.take(vistos))),
                self.nucleos == antes.nucleos,
                self.recursos_disponiveis == antes.recursos_disponiveis,
                self.algoritmo == antes.algoritmo,
                self.tempo_global == antes.tempo_global,
                self.quantum == antes.quantum,
                self.taxa_chegada_processos == antes.taxa_chegada_processos,
                forall|j: int|
                    0 <= j < self.processos@.len() ==> (#[trigger] self.processos@[j]).tabelas_ok(),
                forall|j: int|
                    0 <= j < self.processos_bloqueados@.len() ==> (
                    #[trigger] self.processos_bloqueados@[j]).tabelas_ok(),
            decreases b0.len() - vistos,
        {
            let ghost fila = self.processos@;
            let ghost bloq = self.processos_bloqueados@;
            let ghost ja_aptos = aptos(s.disponiveis, b0.take(vistos));
            let ghost ja_inaptos = inaptos(s.disponiveis, b0.take(vistos));
            proof {
                assert(modelos(bloq).len() == ja_inaptos.len() + b0.skip(vistos).len());
                assert(vistos < b0.len());
                assert(modelos(bloq)[i as int] == b0.skip(vistos)[0]);
                assert(bloq[i as int]@ == b0[vistos]);
                assert(b0.take(vistos + 1).drop_last() =~= b0.take(vistos));
                assert(b0.take(vistos + 1).last() == b0[vistos]);
            }
            if self.recursos_disponiveis.comporta(
                &self.processos_bloqueados[i].recursos_necessarios,
            ) {
                let mut p = self.processos_bloqueados.remove(i);
                p.estado = EstadoProcesso::Pronto;
                eventos.push(Evento::Desbloqueado { tempo: self.tempo_global, processo: p.id });
                self.processos.push_front(p);
                proof {
                    let m = b0[vistos];
                    assert(aptos(s.disponiveis, b0.take(vistos + 1)) == ja_aptos.push(m));
                    assert(inaptos(s.disponiveis, b0.take(vistos + 1)) == ja_inaptos);
                    assert(p@ == m.no_estado(EstadoProcesso::Pronto));
                    assert(self.processos_bloqueados@ == bloq.remove(i as int));
                    assert(modelos(bloq.remove(i as int)) =~= modelos(bloq).remove(i as int));
                    assert((ja_inaptos + b0.skip(vistos)).remove(i as int) =~= ja_inaptos
                        + b0.skip(vistos + 1));
                    assert(modelos(self.processos@) =~= seq![p@] + modelos(fila));
                    assert(ModeloSistema::reativados(ja_aptos.push(m)) =~= seq![p@]
                        + ModeloSistema::reativados(ja_aptos));
                    assert(modelos(self.processos@) =~= ModeloSistema::reativados(
                        ja_aptos.push(m),
                    ) + s.prontos);
                    assert(s.eventos_reativacao(ja_aptos.push(m)) =~= s.eventos_reativacao(
                        ja_aptos,
                    ).push(Evento::Desbloqueado { tempo: s.tempo, processo: m.id }));
                    assert forall|j: int| 0 <= j < self.processos@.len() implies (
                    #[trigger] self.processos@[j]).tabelas_ok() by {
                        if j > 0 {
                            assert(self.processos@[j] == fila[j - 1]);
                        }
                    }
                    assert forall|j: int| 0 <= j < self.processos_bloqueados@.len() implies (
                    #[trigger] self.processos_bloqueados@[j]).tabelas_ok() by {
                        if j < i {
                            assert(self.processos_bloqueados@[j] == bloq[j]);
                        } else {
                            assert(self.processos_bloqueados@[j] == bloq[j + 1]);
                        }
                    }
                }
            } else {
                proof {
                    let m = b0[vistos];
                    assert(aptos(s.disponiveis, b0.take(vistos + 1)) == ja_aptos);
                    assert(inaptos(s.disponiveis, b0.take(vistos + 1)) == ja_inaptos.push(m));
                    assert(modelos(self.processos_bloqueados@) =~= ja_inaptos.push(m) + b0.skip(
                        vistos + 1,
                    ));
                }
                i += 1;
            }
            proof {
                vistos = vistos + 1;
            }
        }
        proof {
            assert(vistos == b0.len());
            assert(b0.take(vistos) =~= b0);
            assert(b0.skip(vistos) =~= Seq::empty());
            assert(self@.bloqueados =~= inaptos(s.disponiveis, b0));
            assert(self@.nucleos == s.nucleos);
            assert(self@ == s.fase_reativacao().0);
            lemma_reativacao(s);
        }
    }

    /// One tick. Recovery, retiring and preempting, assignment and
    /// reactivation run in this order ([`ModeloSistema::passo`]); then the
    /// clock advances by one. The events of the tick are returned in the
    /// order in which they happened. The capacity of every resource kind,
    /// what is free of it together with what the live records hold of it, is
    /// after the tick what it was before.
    pub fn escalonar(&mut self) -> (eventos: Vec<Evento>)
        requires
            old(self).wf(),
            old(self).tempo_global < u32::MAX,
        ensures
            final(self).wf(),
            final(self)@ == old(self)@.passo().0,
            eventos@ == old(self)@.passo().1,
            final(self)@.tempo == old(self)@.tempo + 1,
            forall|r: Recurso| #[trigger] final(self)@.capacidade(r) == old(self)@.capacidade(r),
    {
        let ghost s = self@;
        let mut eventos: Vec<Evento> = Vec::new();
        self.fase_recuperacao(&mut eventos);
        self.fase_avanco(&mut eventos);
        self.fase_atribuicao(&mut eventos);
        self.fase_reativacao(&mut eventos);
        proof {
            lemma_recuperacao(s);
            lemma_avanco(s.fase_recuperacao().0);
            lemma_atribuicao(s.fase_recuperacao().0.fase_avanco().0, 0);
            lemma_reativacao(self@);
            lemma_relogio(self@);
            lemma_passo(s);
        }
        self.tempo_global += 1;
        proof {
            assert(self@ == s.passo().0);
            assert(eventos@ =~= s.passo().1);
        }
        eventos
    }

    /// One tick, for a caller that paces the simulation itself: the same as
    /// [`Sistema::escalonar`].
    pub fn escalonar_interativo(&mut self) -> (eventos: Vec<Evento>)
        requires
            old(self).wf(),
            old(self).tempo_global < u32::MAX,
        ensures
            final(self).wf(),
            final(self)@ == old(self)@.passo().0,
            eventos@ == old(self)@.passo().1,
            forall|r: Recurso| #[trigger] final(self)@.capacidade(r) == old(self)@.capacidade(r),
    {
        self.escalonar()
    }

    /// Up to `passos` ticks, ending before the first tick that would start
    /// with nothing left to do. The events of all the ticks are returned in
    /// order.
    pub fn executar(&mut self, passos: u32) -> (eventos: Vec<Evento>)
        requires
            old(self).wf(),
            old(self).tempo_global + passos <= u32::MAX,
        ensures
            final(self).wf(),
            final(self)@ == old(self)@.execucao(passos as nat).0,
            eventos@ == old(self)@.execucao(passos as nat).1,
            forall|r: Recurso| #[trigger] final(self)@.capacidade(r) == old(self)@.capacidade(r),
    {
        let ghost s0 = self@;
        let mut eventos: Vec<Evento> = Vec::new();
        let mut restam = passos;
        assert(eventos@ + s0.execucao(passos as nat).1 =~= s0.execucao(passos as nat).1);
        while restam > 0 && !self.ocioso()
            invariant
                self.wf(),
                self.tempo_global + restam <= u32::MAX,
                s0.execucao(passos as nat).0 == self@.execucao(restam as nat).0,
                s0.execucao(passos as nat).1 == eventos@ + self@.execucao(restam as nat).1,
                forall|r: Recurso| #[trigger] self@.capacidade(r) == s0.capacidade(r),
            decreases restam,
        {
            let ghost cur = self@;
            let ghost antes = eventos@;
            let mut novos = self.escalonar();
            let ghost e1 = novos@;
            eventos.append(&mut novos);
            restam -= 1;
            proof {
                let depois = self@.execucao(restam as nat);
                assert(cur.execucao((restam + 1) as nat) == (depois.0, e1 + depois.1));
                assert(antes + (e1 + depois.1) =~= (antes + e1) + depois.1);
                assert forall|r: Recurso| #[trigger] self@.capacidade(r) == s0.capacidade(r) by {
                    assert(cur.capacidade(r) == s0.capacidade(r));
                }
            }
        }
        proof {
            assert(self@.execucao(restam as nat) == (self@, Seq::<Evento>::empty()));
            assert(eventos@ + Seq::<Evento>::empty() =~= eventos@);
        }
        eventos
    }
}

} // verus!
