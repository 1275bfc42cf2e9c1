//! The mathematical model of the simulator: its state, what makes a state
//! valid, and what one tick does to it.
//!
//! A tick runs four stages in order and then advances the clock:
//! recovery ([`ModeloSistema::fase_recuperacao`]), retiring and preempting
//! running work ([`ModeloSistema::fase_avanco`]), assigning idle cores
//! ([`ModeloSistema::fase_atribuicao`]) and reactivating blocked records
//! ([`ModeloSistema::fase_reativacao`]).

use crate::evento::Evento;
use crate::politica::{escolha, AlgoritmoEscalonamento};
use crate::processo::{retido, EstadoProcesso, ModeloNucleo, ModeloProcesso};
use crate::recurso::{cabe, creditado, debitado, quantidade, Recurso};
use crate::seguranca::em_deadlock;
use vstd::prelude::*;

verus! {

/// The safety check runs in every tick whose number is a multiple of this.
pub const PERIODO_VERIFICACAO: u32 = 10;

/// What the records on the cores `ns` hold of `r`, together.
pub open spec fn soma_nucleos(ns: Seq<ModeloNucleo>, r: Recurso) -> nat
    decreases ns.len(),
{
    if ns.len() == 0 {
        0
    } else {
        soma_nucleos(ns.drop_last(), r) + retido(ns.last().processo_atual, r)
    }
}

/// What the records `ps` hold of `r`, together.
pub open spec fn soma_processos(ps: Seq<ModeloProcesso>, r: Recurso) -> nat
    decreases ps.len(),
{
    if ps.len() == 0 {
        0
    } else {
        soma_processos(ps.drop_last(), r) + quantidade(ps.last().alocados, r)
    }
}

/// How many of the cores `ns` run a record.
pub open spec fn ocupados(ns: Seq<ModeloNucleo>) -> nat
    decreases ns.len(),
{
    if ns.len() == 0 {
        0
    } else if ns.last().processo_atual is Some {
        ocupados(ns.drop_last()) + 1
    } else {
        ocupados(ns.drop_last())
    }
}

/// `disponivel` after what each record of `ps` holds was put back into it.
pub open spec fn creditado_todos(disponivel: Map<Recurso, u32>, ps: Seq<ModeloProcesso>) -> Map<
    Recurso,
    u32,
>
    decreases ps.len(),
{
    if ps.len() == 0 {
        disponivel
    } else {
        creditado(creditado_todos(disponivel, ps.drop_last()), ps.last().alocados)
    }
}

/// The records of `bs` whose whole demand fits into `disponivel`, in the
/// order of `bs`.
pub open spec fn aptos(disponivel: Map<Recurso, u32>, bs: Seq<ModeloProcesso>) -> Seq<
    ModeloProcesso,
>
    decreases bs.len(),
{
    if bs.len() == 0 {
        Seq::empty()
    } else if cabe(bs.last().necessarios, disponivel) {
        aptos(disponivel, bs.drop_last()).push(bs.last())
    } else {
        aptos(disponivel, bs.drop_last())
    }
}

/// The records of `bs` whose demand does not fit into `disponivel`, in the
/// order of `bs`.
pub open spec fn inaptos(disponivel: Map<Recurso, u32>, bs: Seq<ModeloProcesso>) -> Seq<
    ModeloProcesso,
>
    decreases bs.len(),
{
    if bs.len() == 0 {
        Seq::empty()
    } else if cabe(bs.last().necessarios, disponivel) {
        inaptos(disponivel, bs.drop_last())
    } else {
        inaptos(disponivel, bs.drop_last()).push(bs.last())
    }
}

/// What happens in a tick to a record that is on a core when the tick
/// starts.
pub enum Avanco {
    /// It had no time left: it leaves the system.
    Conclui,
    /// It loses its core and goes to the back of the ready queue.
    Preempta,
    /// It stays on its core.
    Continua,
}

/// The model of the whole simulator.
pub struct ModeloSistema {
    pub nucleos: Seq<ModeloNucleo>,
    /// The ready queue, head first.
    pub prontos: Seq<ModeloProcesso>,
    pub bloqueados: Seq<ModeloProcesso>,
    /// The ledger: what is free of each kind.
    pub disponiveis: Map<Recurso, u32>,
    pub algoritmo: AlgoritmoEscalonamento,
    /// The number of the next tick.
    pub tempo: u32,
    pub quantum: u32,
    pub taxa_chegada: u32,
}

impl ModeloSistema {
    /// What all the live records hold of `r`: those on cores, the ready and
    /// the blocked.
    pub open spec fn em_uso(self, r: Recurso) -> nat {
        soma_nucleos(self.nucleos, r) + soma_processos(self.prontos, r) + soma_processos(
            self.bloqueados,
            r,
        )
    }

    /// The capacity of `r`: what is free of it and what is held of it.
    pub open spec fn capacidade(self, r: Recurso) -> nat {
        quantidade(self.disponiveis, r) + self.em_uso(r)
    }

    /// What holds of the state between ticks.
    pub open spec fn valido(self) -> bool {
        &&& self.nucleos.len() > 0
        &&& self.algoritmo == AlgoritmoEscalonamento::RoundRobin ==> self.quantum >= 1
        &&& forall|i: int|
            0 <= i < self.nucleos.len() ==> match (#[trigger] self.nucleos[i]).processo_atual {
                Some(p) => p.em_execucao(self.tempo),
                None => true,
            }
        &&& forall|i: int|
            0 <= i < self.prontos.len() ==> (#[trigger] self.prontos[i]).em_espera(
                EstadoProcesso::Pronto,
                self.tempo,
            )
        &&& forall|i: int|
            0 <= i < self.bloqueados.len() ==> (#[trigger] self.bloqueados[i]).em_espera(
                EstadoProcesso::Bloqueado,
                self.tempo,
            )
        &&& forall|r: Recurso| #[trigger] self.capacidade(r) <= u32::MAX
    }

    /// Nothing is left to do: no record is ready, blocked or on a core.
    pub open spec fn ocioso(self) -> bool {
        &&& self.prontos.len() == 0
        &&& self.bloqueados.len() == 0
        &&& forall|i: int|
            0 <= i < self.nucleos.len() ==> (#[trigger] self.nucleos[i]).processo_atual is None
    }

    /// The records that the safety check looks at: the ready, then the
    /// blocked.
    pub open spec fn em_analise(self) -> Seq<ModeloProcesso> {
        self.prontos + self.bloqueados
    }

    /// Whether this tick starts with a recovery: its number is a multiple of
    /// [`PERIODO_VERIFICACAO`] and the waiting records are deadlocked.
    pub open spec fn em_recuperacao(self) -> bool {
        self.tempo % PERIODO_VERIFICACAO == 0 && em_deadlock(self.disponiveis, self.em_analise())
    }

    /// Recovery. Where [`Self::em_recuperacao`] holds, the record at the
    /// head of the ready queue is evicted, whatever part it has in the
    /// deadlock, and what it holds goes back to the ledger. The event names
    /// the victim; with an empty ready queue there is none.
    pub open spec fn fase_recuperacao(self) -> (ModeloSistema, Seq<Evento>) {
        if !self.em_recuperacao() {
            (self, Seq::empty())
        } else if self.prontos.len() == 0 {
            (self, seq![Evento::DeadlockRecuperado { tempo: self.tempo, vitima: None }])
        } else {
            let v = self.prontos[0];
            (
                ModeloSistema {
                    prontos: self.prontos.drop_first(),
                    disponiveis: creditado(self.disponiveis, v.alocados),
                    ..self
                },
                seq![Evento::DeadlockRecuperado { tempo: self.tempo, vitima: Some(v.id) }],
            )
        }
    }

    /// What this tick does to the running record `p`. A record without time
    /// left concludes. Any other is preempted under `RoundRobin` when the
    /// ticks since its arrival are a multiple of the quantum, and under no
    /// other policy.
    pub open spec fn avanco(self, p: ModeloProcesso) -> Avanco {
        if p.tempo_restante == 0 {
            Avanco::Conclui
        } else if self.algoritmo == AlgoritmoEscalonamento::RoundRobin && (self.tempo
            - p.tempo_chegada) % (self.quantum as int) == 0 {
            Avanco::Preempta
        } else {
            Avanco::Continua
        }
    }

    /// The record `p` after one more tick on a core, in the state `estado`.
    pub open spec fn avancado(p: ModeloProcesso, estado: EstadoProcesso) -> ModeloProcesso {
        ModeloProcesso { tempo_restante: (p.tempo_restante - 1) as u32, estado, ..p }
    }

    /// The core `n` once its record was advanced: the record stays, one tick
    /// older, or the core is empty.
    pub open spec fn nucleo_avancado(self, n: ModeloNucleo) -> ModeloNucleo {
        match n.processo_atual {
            Some(p) if self.avanco(p) is Continua => ModeloNucleo {
                processo_atual: Some(Self::avancado(p, EstadoProcesso::Executando)),
                ..n
            },
            _ => ModeloNucleo { processo_atual: None, ..n },
        }
    }

    /// The cores `ns`, each advanced.
    pub open spec fn nucleos_avancados(self, ns: Seq<ModeloNucleo>) -> Seq<ModeloNucleo> {
        ns.map_values(|n: ModeloNucleo| self.nucleo_avancado(n))
    }

    /// The records that conclude on the cores `ns`, in core order, as they
    /// were on their cores.
    pub open spec fn concluidos_em(self, ns: Seq<ModeloNucleo>) -> Seq<ModeloProcesso>
        decreases ns.len(),
    {
        if ns.len() == 0 {
            Seq::empty()
        } else {
            let antes = self.concluidos_em(ns.drop_last());
            match ns.last().processo_atual {
                Some(p) if self.avanco(p) is Conclui => antes.push(p),
                _ => antes,
            }
        }
    }

    /// The records that are preempted on the cores `ns`, in core order, one
    /// tick older and ready, still holding what they held.
    pub open spec fn preemptados_em(self, ns: Seq<ModeloNucleo>) -> Seq<ModeloProcesso>
        decreases ns.len(),
    {
        if ns.len() == 0 {
            Seq::empty()
        } else {
            let antes = self.preemptados_em(ns.drop_last());
            match ns.last().processo_atual {
                Some(p) if self.avanco(p) is Preempta => antes.push(
                    Self::avancado(p, EstadoProcesso::Pronto),
                ),
                _ => antes,
            }
        }
    }

    /// The events of the records `ps` that concluded.
    pub open spec fn eventos_conclusao(self, ps: Seq<ModeloProcesso>) -> Seq<Evento> {
        ps.map_values(|p: ModeloProcesso| Evento::Concluido { tempo: self.tempo, processo: p.id })
    }

    /// The events of the records `ps` that were preempted.
    pub open spec fn eventos_preempcao(self, ps: Seq<ModeloProcesso>) -> Seq<Evento> {
        ps.map_values(|p: ModeloProcesso| Evento::Preemptado { tempo: self.tempo, processo: p.id })
    }

    /// The records `ps` as they enter the ready queue: holding nothing.
    pub open spec fn devolvidos(ps: Seq<ModeloProcesso>) -> Seq<ModeloProcesso> {
        ps.map_values(|p: ModeloProcesso| p.sem_alocacao())
    }

    /// Retiring and preempting. Every record on a core is advanced by one
    /// tick ([`Self::avanco`]). Then what the concluded records held goes
    /// back to the ledger, and they are gone. Then what the preempted
    /// records held goes back, and they join the back of the ready queue,
    /// holding nothing. The events are those of the concluded, in core
    /// order, then those of the preempted.
    pub open spec fn fase_avanco(self) -> (ModeloSistema, Seq<Evento>) {
        let concluidos = self.concluidos_em(self.nucleos);
        let preemptados = self.preemptados_em(self.nucleos);
        (
            ModeloSistema {
                nucleos: self.nucleos_avancados(self.nucleos),
                disponiveis: creditado_todos(
                    creditado_todos(self.disponiveis, concluidos),
                    preemptados,
                ),
                prontos: self.prontos + Self::devolvidos(preemptados),
                ..self
            },
            self.eventos_conclusao(concluidos) + self.eventos_preempcao(preemptados),
        )
    }

    /// The record `p` as it is placed on a core: running, holding the whole
    /// of its demand.
    pub open spec fn iniciado(p: ModeloProcesso) -> ModeloProcesso {
        ModeloProcesso { estado: EstadoProcesso::Executando, alocados: p.necessarios, ..p }
    }

    /// The state after the record at position `k` of the ready queue was
    /// granted its demand and placed on the idle core `i`.
    pub open spec fn com_inicio(self, i: int, k: int) -> ModeloSistema {
        let p = self.prontos[k];
        ModeloSistema {
            nucleos: self.nucleos.update(
                i,
                ModeloNucleo { processo_atual: Some(Self::iniciado(p)), ..self.nucleos[i] },
            ),
            prontos: self.prontos.remove(k),
            disponiveis: debitado(self.disponiveis, p.necessarios),
            ..self
        }
    }

    /// The state after the record at position `k` of the ready queue was
    /// moved to the blocked set.
    pub open spec fn com_bloqueio(self, k: int) -> ModeloSistema {
        let p = self.prontos[k];
        ModeloSistema {
            prontos: self.prontos.remove(k),
            bloqueados: self.bloqueados.push(p.no_estado(EstadoProcesso::Bloqueado)),
            ..self
        }
    }

    /// Assignment, from core `i` on. For each idle core in turn the policy
    /// picks a record of the ready queue. If the ledger can grant its whole
    /// demand, the record leaves the queue, the ledger is debited and the
    /// record runs on that core. If not, the record leaves the queue for
    /// the blocked set and no further core is served in this tick, even if
    /// another record of the queue could run. With an empty queue the stage
    /// ends too.
    pub open spec fn fase_atribuicao_de(self, i: int) -> (ModeloSistema, Seq<Evento>)
        decreases self.nucleos.len() - i,
    {
        if i < 0 || i >= self.nucleos.len() {
            (self, Seq::empty())
        } else if self.nucleos[i].processo_atual is Some {
            self.fase_atribuicao_de(i + 1)
        } else {
            match escolha(self.algoritmo, self.prontos) {
                None => (self, Seq::empty()),
                Some(k) => {
                    let p = self.prontos[k];
                    if cabe(p.necessarios, self.disponiveis) {
                        let (s, e) = self.com_inicio(i, k).fase_atribuicao_de(i + 1);
                        (
                            s,
                            seq![
                                Evento::Iniciado {
                                    tempo: self.tempo,
                                    nucleo: self.nucleos[i].id,
                                    processo: p.id,
                                },
                            ] + e,
                        )
                    } else {
                        (
                            self.com_bloqueio(k),
                            seq![Evento::Bloqueado { tempo: self.tempo, processo: p.id }],
                        )
                    }
                },
            }
        }
    }

    /// Assignment over all the cores, in core order.
    pub open spec fn fase_atribuicao(self) -> (ModeloSistema, Seq<Evento>) {
        self.fase_atribuicao_de(0)
    }

    /// The records `ps` as they return to the ready queue, the last of `ps`
    /// first.
    pub open spec fn reativados(ps: Seq<ModeloProcesso>) -> Seq<ModeloProcesso> {
        ps.map_values(|p: ModeloProcesso| p.no_estado(EstadoProcesso::Pronto)).reverse()
    }

    /// The events of the records `ps` that were unblocked.
    pub open spec fn eventos_reativacao(self, ps: Seq<ModeloProcesso>) -> Seq<Evento> {
        ps.map_values(
            |p: ModeloProcesso| Evento::Desbloqueado { tempo: self.tempo, processo: p.id },
        )
    }

    /// Reactivation. Every blocked record whose whole demand fits into the
    /// ledger goes to the front of the ready queue, ahead of the records
    /// that were ready, and the one that was unblocked last comes first.
    /// Nothing is reserved here; that is left to the next assignment.
    pub open spec fn fase_reativacao(self) -> (ModeloSistema, Seq<Evento>) {
        let voltam = aptos(self.disponiveis, self.bloqueados);
        (
            ModeloSistema {
                prontos: Self::reativados(voltam) + self.prontos,
                bloqueados: inaptos(self.disponiveis, self.bloqueados),
                ..self
            },
            self.eventos_reativacao(voltam),
        )
    }

    /// The state with the clock advanced by one.
    pub open spec fn com_relogio(self) -> ModeloSistema {
        ModeloSistema { tempo: (self.tempo + 1) as u32, ..self }
    }

    /// One tick: the four stages in order, then the clock. The events are
    /// those of the stages, in that order.
    pub open spec fn passo(self) -> (ModeloSistema, Seq<Evento>) {
        let (s0, e0) = self.fase_recuperacao();
        let (s1, e1) = s0.fase_avanco();
        let (s2, e2) = s1.fase_atribuicao();
        let (s3, e3) = s2.fase_reativacao();
        (s3.com_relogio(), e0 + e1 + e2 + e3)
    }

    /// Up to `passos` ticks, ending before the first tick that would start
    /// with nothing left to do.
    pub open spec fn execucao(self, passos: nat) -> (ModeloSistema, Seq<Evento>)
        decreases passos,
    {
        if passos == 0 || self.ocioso() {
            (self, Seq::empty())
        } else {
            let (s1, e1) = self.passo();
            let (s2, e2) = s1.execucao((passos - 1) as nat);
            (s2, e1 + e2)
        }
    }
}

} // verus!
