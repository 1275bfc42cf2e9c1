//! The simulator: cores, ready queue, blocked set, ledger and clock, owned
//! by one value, so that independent simulations can run side by side.

use crate::invariantes::{lemma_nucleos_ociosos, lemma_soma_vazia};
use crate::modelo::{ocupados, ModeloSistema};
use crate::politica::{escolha, escolher, AlgoritmoEscalonamento};
use crate::processo::{
    modelos, modelos_nucleos, EstadoProcesso, ModeloNucleo, ModeloProcesso, Nucleo, Processo,
};
use crate::recurso::{cabe, creditado, debitado, quantidade, Recurso, Recursos};
use crate::seguranca::{em_deadlock, ha_deadlock, lemma_nada_a_terminar, modelos_de};
use std::collections::VecDeque;
use vstd::prelude::*;

verus! {

/// Why a simulator could not be made.
#[derive(Debug, Clone, Copy, PartialEq, Eq, Structural)]
pub enum ErroConfiguracao {
    /// There must be at least one core.
    SemNucleos,
    /// Under `RoundRobin` the quantum must be at least one tick.
    QuantumInvalido,
}

/// The rate at which new work arrives, where the caller sets none.
pub const TAXA_CHEGADA_PADRAO: u32 = 20;

/// What a new simulator has free of each kind.
pub open spec fn recursos_iniciais() -> Map<Recurso, u32> {
    Map::<Recurso, u32>::empty().insert(Recurso::Impressora, 2).insert(Recurso::Scanner, 1).insert(
        Recurso::Disco,
        3,
    ).insert(Recurso::Memoria(1024), 8)
}

/// The cores of a new simulator: `n` idle cores, numbered from zero.
pub open spec fn nucleos_iniciais(n: nat) -> Seq<ModeloNucleo> {
    Seq::new(n, |i: int| ModeloNucleo { id: i as u32, processo_atual: None, tempo_ocioso: 0 })
}

/// The state of a new simulator.
pub open spec fn estado_inicial(
    num_nucleos: u32,
    quantum: u32,
    algoritmo: AlgoritmoEscalonamento,
) -> ModeloSistema {
    ModeloSistema {
        nucleos: nucleos_iniciais(num_nucleos as nat),
        prontos: Seq::empty(),
        bloqueados: Seq::empty(),
        disponiveis: recursos_iniciais(),
        algoritmo,
        tempo: 0,
        quantum,
        taxa_chegada: TAXA_CHEGADA_PADRAO,
    }
}

/// The record `p` as it enters the simulator at tick `agora`: ready,
/// holding nothing, stamped with its arrival.
pub open spec fn submetido(p: ModeloProcesso, agora: u32) -> ModeloProcesso {
    ModeloProcesso {
        estado: EstadoProcesso::Pronto,
        tempo_chegada: agora,
        alocados: Map::empty(),
        ..p
    }
}

/// A copy of what can be read of a simulator between two ticks.
#[derive(Debug)]
pub struct Instantaneo {
    /// The cores, with what each runs and how long it was idle.
    pub nucleos: Vec<Nucleo>,
    /// The ready queue, head first.
    pub prontos: Vec<Processo>,
    pub bloqueados: Vec<Processo>,
    /// What is free of each kind that the ledger lists.
    pub disponiveis: Recursos,
    /// The number of the next tick.
    pub tempo_global: u32,
}

/// The simulator. Its fields are open to reading; a caller that writes to
/// them keeps [`Sistema::wf`].
#[derive(Debug)]
pub struct Sistema {
    pub nucleos: Vec<Nucleo>,
    /// The ready queue, head first.
    pub processos: VecDeque<Processo>,
    pub processos_bloqueados: Vec<Processo>,
    /// The ledger: what is free of each kind.
    pub recursos_disponiveis: Recursos,
    pub algoritmo: AlgoritmoEscalonamento,
    /// The number of the next tick.
    pub tempo_global: u32,
    pub quantum: u32,
    pub taxa_chegada_processos: u32,
}

impl View for Sistema {
    type V = ModeloSistema;

    open spec fn view(&self) -> ModeloSistema {
        ModeloSistema {
            nucleos: modelos_nucleos(self.nucleos@),
            prontos: modelos(self.processos@),
            bloqueados: modelos(self.processos_bloqueados@),
            disponiveis: self.recursos_disponiveis@,
            algoritmo: self.algoritmo,
            tempo: self.tempo_global,
            quantum: self.quantum,
            taxa_chegada: self.taxa_chegada_processos,
        }
    }
}

impl Sistema {
    /// Every resource table in the simulator is well formed.
    pub open spec fn tabelas_ok(&self) -> bool {
        &&& self.recursos_disponiveis.wf()
        &&& forall|i: int| 0 <= i < self.nucleos@.len() ==> (#[trigger] self.nucleos@[i]).tabelas_ok()
        &&& forall|i: int|
            0 <= i < self.processos@.len() ==> (#[trigger] self.processos@[i]).tabelas_ok()
        &&& forall|i: int|
            0 <= i < self.processos_bloqueados@.len() ==> (
            #[trigger] self.processos_bloqueados@[i]).tabelas_ok()
    }

    /// The simulator is well formed and its state is valid.
    pub open spec fn wf(&self) -> bool {
        self.tabelas_ok() && self@.valido()
    }

    /// A simulator with `num_nucleos` idle cores, empty queues, the clock at
    /// zero and the initial ledger. There must be a core, and under
    /// `RoundRobin` a quantum of at least one; under the other policies the
    /// quantum is kept and never read.
    pub fn new(num_nucleos: u32, quantum: u32, algoritmo: AlgoritmoEscalonamento) -> (r: Result<
        Sistema,
        ErroConfiguracao,
    >)
        ensures
            match r {
                Ok(s) => {
                    &&& num_nucleos > 0
                    &&& algoritmo == AlgoritmoEscalonamento::RoundRobin ==> quantum >= 1
                    &&& s.wf()
                    &&& s@ == estado_inicial(num_nucleos, quantum, algoritmo)
                },
                Err(ErroConfiguracao::SemNucleos) => num_nucleos == 0,
                Err(ErroConfiguracao::QuantumInvalido) => {
                    &&& num_nucleos > 0
                    &&& algoritmo == AlgoritmoEscalonamento::RoundRobin
                    &&& quantum == 0
                },
            },
    {
        if num_nucleos == 0 {
            return Err(ErroConfiguracao::SemNucleos);
        }
        if algoritmo == AlgoritmoEscalonamento::RoundRobin && quantum == 0 {
            return Err(ErroConfiguracao::QuantumInvalido);
        }
        let mut nucleos: Vec<Nucleo> = Vec::new();
        let mut i: u32 = 0;
        while i < num_nucleos
            invariant
                i <= num_nucleos,
                nucleos@.len() == i,
                forall|j: int| 0 <= j < i ==> (#[trigger] nucleos@[j]).tabelas_ok(),
                forall|j: int|
                    0 <= j < i ==> (#[trigger] nucleos@[j])@ == (ModeloNucleo {
                        id: j as u32,
                        processo_atual: None,
                        tempo_ocioso: 0,
                    }),
            decreases num_nucleos - i,
        {
            nucleos.push(Nucleo::new(i));
            i += 1;
        }
        let mut recursos = Recursos::new();
        recursos.insert(Recurso::Impressora, 2);
        recursos.insert(Recurso::Scanner, 1);
        recursos.insert(Recurso::Disco, 3);
        recursos.insert(Recurso::Memoria(1024), 8);
        let s = Sistema {
            nucleos,
            processos: VecDeque::new(),
            processos_bloqueados: Vec::new(),
            recursos_disponiveis: recursos,
            algoritmo,
            tempo_global: 0,
            quantum,
            taxa_chegada_processos: TAXA_CHEGADA_PADRAO,
        };
        proof {
            let m = estado_inicial(num_nucleos, quantum, algoritmo);
            assert(s@.nucleos =~= m.nucleos);
            assert(s@.prontos =~= m.prontos);
            assert(s@.bloqueados =~= m.bloqueados);
            assert forall|r: Recurso| #[trigger] s@.capacidade(r) <= u32::MAX by {
                lemma_nucleos_ociosos(s@.nucleos, r);
            }
        }
        Ok(s)
    }

    /// Submits a record: it joins the back of the ready queue as a new
    /// ready record, stamped with the current tick. Whether the ledger can
    /// grant its demand is not looked at here.
    pub fn adicionar_processo(&mut self, processo: Processo)
        requires
            old(self).wf(),
            processo.wf(),
        ensures
            final(self).wf(),
            final(self)@ == (ModeloSistema {
                prontos: old(self)@.prontos.push(submetido(processo@, old(self)@.tempo)),
                ..old(self)@
            }),
            forall|r: Recurso| #[trigger] final(self)@.capacidade(r) == old(self)@.capacidade(r),
    {
        let ghost s = self@;
        let mut processo = processo;
        processo.estado = EstadoProcesso::Pronto;
        processo.tempo_chegada = self.tempo_global;
        processo.recursos_alocados.clear();
        self.processos.push_back(processo);
        proof {
            let t = self@;
            assert(t.prontos =~= s.prontos.push(submetido(processo@, s.tempo)));
            assert forall|i: int| 0 <= i < t.prontos.len() implies (#[trigger] t.prontos[i]).em_espera(
                EstadoProcesso::Pronto,
                t.tempo,
            ) by {
                if i < s.prontos.len() {
                    assert(t.prontos[i] == s.prontos[i]);
                }
            }
            assert forall|r: Recurso| #[trigger] t.capacidade(r) == s.capacidade(r) by {
                lemma_soma_vazia(t.prontos, r);
                lemma_soma_vazia(s.prontos, r);
            }
            assert forall|r: Recurso| #[trigger] t.capacidade(r) <= u32::MAX by {
                assert(s.capacidade(r) <= u32::MAX);
            }
        }
    }

    /// Whether the ledger has the whole demand of `processo` free.
    pub fn pode_alocar_recursos(&self, processo: &Processo) -> (b: bool)
        requires
            self.wf(),
            processo.tabelas_ok(),
        ensures
            b == cabe(processo@.necessarios, self@.disponiveis),
    {
        self.recursos_disponiveis.comporta(&processo.recursos_necessarios)
    }

    /// Takes the whole demand of `processo` out of the ledger, or nothing:
    /// the ledger is debited only if it has the whole demand free. Nothing
    /// else changes; the record itself is not touched.
    pub fn alocar_recursos(&mut self, processo: &Processo) -> (b: bool)
        requires
            old(self).wf(),
            processo.tabelas_ok(),
        ensures
            final(self).wf(),
            b == cabe(processo@.necessarios, old(self)@.disponiveis),
            final(self)@ == (ModeloSistema {
                disponiveis: if b {
                    debitado(old(self)@.disponiveis, processo@.necessarios)
                } else {
                    old(self)@.disponiveis
                },
                ..old(self)@
            }),
    {
        let ghost s = self@;
        let b = self.recursos_disponiveis.reservar(&processo.recursos_necessarios);
        proof {
            let t = self@;
            assert forall|r: Recurso| #[trigger] t.capacidade(r) <= u32::MAX by {
                assert(s.capacidade(r) <= u32::MAX);
            }
        }
        b
    }

    /// Puts what `processo` holds back into the ledger. Nothing else
    /// changes; the record itself is not touched.
    pub fn liberar_recursos(&mut self, processo: &Processo)
        requires
            old(self).wf(),
            processo.tabelas_ok(),
            forall|r: Recurso| #[trigger]
                old(self)@.capacidade(r) + quantidade(processo@.alocados, r) <= u32::MAX,
        ensures
            final(self).wf(),
            final(self)@ == (ModeloSistema {
                disponiveis: creditado(old(self)@.disponiveis, processo@.alocados),
                ..old(self)@
            }),
    {
        let ghost s = self@;
        proof {
            assert forall|r: Recurso| #[trigger]
                processo@.alocados.dom().contains(r) implies quantidade(s.disponiveis, r)
                + processo@.alocados[r] <= u32::MAX by {
                assert(s.capacidade(r) + quantidade(processo@.alocados, r) <= u32::MAX);
            }
        }
        self.recursos_disponiveis.liberar(&processo.recursos_alocados);
        proof {
            let t = self@;
            assert forall|r: Recurso| #[trigger] t.capacidade(r) <= u32::MAX by {
                assert(s.capacidade(r) + quantidade(processo@.alocados, r) <= u32::MAX);
            }
        }
    }

    /// The position in the ready queue of the record that the policy picks.
    pub fn indice_proximo_processo(&self) -> (r: Option<usize>)
        ensures
            match r {
                Some(k) => escolha(self@.algoritmo, self@.prontos) == Some(k as int) && k
                    < self.processos@.len(),
                None => self@.prontos.len() == 0,
            },
    {
        escolher(self.algoritmo, &self.processos)
    }

    /// The record of the ready queue that the policy picks. The queue stays
    /// as it is.
    pub fn escolher_proximo_processo(&self) -> (r: Option<&Processo>)
        ensures
            match r {
                Some(p) => {
                    &&& escolha(self@.algoritmo, self@.prontos) is Some
                    &&& *p == self.processos@[escolha(self@.algoritmo, self@.prontos).unwrap()]
                },
                None => self@.prontos.len() == 0,
            },
    {
        match escolher(self.algoritmo, &self.processos) {
            Some(k) => Some(&self.processos[k]),
            None => None,
        }
    }

    /// Whether the waiting records, ready and blocked, are deadlocked over
    /// what the ledger has free. Records on cores are not looked at: they
    /// have what they asked for, and what they hold counts as not free.
    pub fn verificar_deadlock(&self) -> (b: bool)
        requires
            self.wf(),
        ensures
            b == em_deadlock(self@.disponiveis, self@.em_analise()),
            self@.em_analise().len() == 0 ==> !b,
    {
        let mut todos: Vec<&Processo> = Vec::new();
        let mut i: usize = 0;
        while i < self.processos.len()
            invariant
                self.wf(),
                i <= self.processos@.len(),
                todos@.len() == i,
                forall|j: int| 0 <= j < i ==> *(#[trigger] todos@[j]) == self.processos@[j],
            decreases self.processos@.len() - i,
        {
            todos.push(&self.processos[i]);
            i += 1;
        }
        let ghost a = self.processos@.len();
        let mut i: usize = 0;
        while i < self.processos_bloqueados.len()
            invariant
                self.wf(),
                a == self.processos@.len(),
                i <= self.processos_bloqueados@.len(),
                todos@.len() == a + i,
                forall|j: int| 0 <= j < a ==> *(#[trigger] todos@[j]) == self.processos@[j],
                forall|j: int|
                    0 <= j < i ==> *(#[trigger] todos@[a + j]) == self.processos_bloqueados@[j],
            decreases self.processos_bloqueados@.len() - i,
        {
            todos.push(&self.processos_bloqueados[i]);
            i += 1;
        }
        proof {
            assert(modelos_de(todos@) =~= self@.em_analise()) by {
                assert forall|j: int| 0 <= j < todos@.len() implies modelos_de(todos@)[j]
                    == self@.em_analise()[j] by {
                    if j >= a {
                        assert(*todos@[a + (j - a)] == self.processos_bloqueados@[j - a]);
                    }
                }
            }
            assert forall|j: int| 0 <= j < todos@.len() implies (#[trigger] todos@[j]).tabelas_ok() by {
                if j >= a {
                    assert(*todos@[a + (j - a)] == self.processos_bloqueados@[j - a]);
                }
            }
            if self@.em_analise().len() == 0 {
                lemma_nada_a_terminar(self@.disponiveis, self@.em_analise());
            }
        }
        ha_deadlock(&self.recursos_disponiveis, &todos)
    }

    /// A copy of the cores, the ready queue, the blocked set, the ledger and
    /// the clock. The simulator stays as it is.
    pub fn instantaneo(&self) -> (v: Instantaneo)
        ensures
            modelos_nucleos(v.nucleos@) == self@.nucleos,
            modelos(v.prontos@) == self@.prontos,
            modelos(v.bloqueados@) == self@.bloqueados,
            v.disponiveis@ == self@.disponiveis,
            v.tempo_global == self@.tempo,
    {
        let mut nucleos: Vec<Nucleo> = Vec::new();
        let mut i: usize = 0;
        while i < self.nucleos.len()
            invariant
                i <= self.nucleos@.len(),
                modelos_nucleos(nucleos@) == self@.nucleos.take(i as int),
            decreases self.nucleos@.len() - i,
        {
            let copia = self.nucleos[i].clone();
            assert(copia@ == self@.nucleos[i as int]);
            let ghost antes = nucleos@;
            let ghost m = copia@;
            nucleos.push(copia);
            assert(modelos_nucleos(nucleos@) =~= modelos_nucleos(antes).push(m));
            assert(self@.nucleos.take(i + 1) =~= self@.nucleos.take(i as int).push(m));
            i += 1;
        }
        assert(self@.nucleos.take(i as int) =~= self@.nucleos);
        let mut prontos: Vec<Processo> = Vec::new();
        let mut i: usize = 0;
        while i < self.processos.len()
            invariant
                i <= self.processos@.len(),
                modelos(prontos@) == self@.prontos.take(i as int),
            decreases self.processos@.len() - i,
        {
            let copia = self.processos[i].clone();
            assert(copia@ == self@.prontos[i as int]);
            let ghost antes = prontos@;
            let ghost m = copia@;
            prontos.push(copia);
            assert(modelos(prontos@) =~= modelos(antes).push(m));
            assert(self@.prontos.take(i + 1) =~= self@.prontos.take(i as int).push(m));
            i += 1;
        }
        assert(self@.prontos.take(i as int) =~= self@.prontos);
        let mut bloqueados: Vec<Processo> = Vec::new();
        let mut i: usize = 0;
        while i < self.processos_bloqueados.len()
            invariant
                i <= self.processos_bloqueados@.len(),
                modelos(bloqueados@) == self@.bloqueados.take(i as int),
            decreases self.processos_bloqueados@.len() - i,
        {
            let copia = self.processos_bloqueados[i].clone();
            assert(copia@ == self@.bloqueados[i as int]);
            let ghost antes = bloqueados@;
            let ghost m = copia@;
            bloqueados.push(copia);
            assert(modelos(bloqueados@) =~= modelos(antes).push(m));
            assert(self@.bloqueados.take(i + 1) =~= self@.bloqueados.take(i as int).push(m));
            i += 1;
        }
        assert(self@.bloqueados.take(i as int) =~= self@.bloqueados);
        Instantaneo {
            nucleos,
            prontos,
            bloqueados,
            disponiveis: self.recursos_disponiveis.clone(),
            tempo_global: self.tempo_global,
        }
    }

    /// Whether nothing is left to do: no record is ready, blocked or on a
    /// core.
    pub fn ocioso(&self) -> (b: bool)
        ensures
            b == self@.ocioso(),
    {
        if self.processos.len() != 0 || self.processos_bloqueados.len() != 0 {
            return false;
        }
        let mut i: usize = 0;
        while i < self.nucleos.len()
            invariant
                i <= self.nucleos@.len(),
                forall|j: int| 0 <= j < i ==> (#[trigger] self@.nucleos[j]).processo_atual is None,
            decreases self.nucleos@.len() - i,
        {
            if self.nucleos[i].processo_atual.is_some() {
                assert(self@.nucleos[i as int].processo_atual is Some);
                return false;
            }
            i += 1;
        }
        true
    }

    /// The number of cores that run a record.
    pub fn nucleos_ocupados(&self) -> (n: usize)
        ensures
            n == ocupados(self@.nucleos),
    {
        let mut n: usize = 0;
        let mut i: usize = 0;
        while i < self.nucleos.len()
            invariant
                i <= self.nucleos@.len(),
                n <= i,
                n == ocupados(self@.nucleos.take(i as int)),
            decreases self.nucleos@.len() - i,
        {
            assert(self@.nucleos.take(i + 1).drop_last() =~= self@.nucleos.take(i as int));
            if self.nucleos[i].processo_atual.is_some() {
                n += 1;
            }
            i += 1;
        }
        assert(self@.nucleos.take(i as int) =~= self@.nucleos);
        n
    }
}

} // verus!
