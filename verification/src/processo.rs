//! Process records and core slots, with the mathematical models that the
//! contracts speak of.

use crate::recurso::{quantidade, Recurso, Recursos};
use vstd::prelude::*;

verus! {

/// Where a process stands in its life.
#[derive(Debug, Clone, Copy, PartialEq, Eq, Structural)]
pub enum EstadoProcesso {
    Pronto,
    Executando,
    Bloqueado,
    Concluido,
}

/// `alocados` lists only kinds that `necessarios` lists, and never more of a
/// kind than `necessarios` asks for.
pub open spec fn contido(alocados: Map<Recurso, u32>, necessarios: Map<Recurso, u32>) -> bool {
    forall|r: Recurso| #[trigger]
        alocados.dom().contains(r) ==> necessarios.dom().contains(r) && alocados[r]
            <= necessarios[r]
}

/// The model of a process record: its fields, with the two resource tables
/// as maps.
pub struct ModeloProcesso {
    pub id: u32,
    pub prioridade: i32,
    pub tempo_total: u32,
    pub tempo_restante: u32,
    pub tempo_chegada: u32,
    pub estado: EstadoProcesso,
    pub alocados: Map<Recurso, u32>,
    pub necessarios: Map<Recurso, u32>,
}

impl ModeloProcesso {
    /// What holds of every record at every point: no more time is left than
    /// the record started with, and it holds nothing beyond its demand.
    pub open spec fn valido(self) -> bool {
        &&& self.tempo_restante <= self.tempo_total
        &&& contido(self.alocados, self.necessarios)
    }

    /// A record that waits, ready or blocked: it is in the state `estado`,
    /// holds nothing, and did not arrive after `agora`.
    pub open spec fn em_espera(self, estado: EstadoProcesso, agora: u32) -> bool {
        &&& self.valido()
        &&& self.estado == estado
        &&& self.alocados == Map::<Recurso, u32>::empty()
        &&& self.tempo_chegada <= agora
    }

    /// A record on a core: it is running, holds the whole of its demand, and
    /// did not arrive after `agora`.
    pub open spec fn em_execucao(self, agora: u32) -> bool {
        &&& self.valido()
        &&& self.estado == EstadoProcesso::Executando
        &&& self.alocados == self.necessarios
        &&& self.tempo_chegada <= agora
    }

    /// The record as it is when nothing is allocated to it.
    pub open spec fn sem_alocacao(self) -> ModeloProcesso {
        ModeloProcesso { alocados: Map::empty(), ..self }
    }

    /// The record in another state.
    pub open spec fn no_estado(self, estado: EstadoProcesso) -> ModeloProcesso {
        ModeloProcesso { estado, ..self }
    }
}

/// A unit of schedulable work, with what it demands and what it holds.
#[derive(Debug)]
pub struct Processo {
    pub id: u32,
    /// A higher value is more urgent.
    pub prioridade: i32,
    pub tempo_total: u32,
    pub tempo_restante: u32,
    /// The tick at which the record was submitted.
    pub tempo_chegada: u32,
    pub estado: EstadoProcesso,
    pub recursos_alocados: Recursos,
    pub recursos_necessarios: Recursos,
}

impl View for Processo {
    type V = ModeloProcesso;

    open spec fn view(&self) -> ModeloProcesso {
        ModeloProcesso {
            id: self.id,
            prioridade: self.prioridade,
            tempo_total: self.tempo_total,
            tempo_restante: self.tempo_restante,
            tempo_chegada: self.tempo_chegada,
            estado: self.estado,
            alocados: self.recursos_alocados@,
            necessarios: self.recursos_necessarios@,
        }
    }
}

impl Processo {
    /// Both resource tables are well formed.
    pub open spec fn tabelas_ok(&self) -> bool {
        self.recursos_alocados.wf() && self.recursos_necessarios.wf()
    }

    /// The record is well formed and its model is valid.
    pub open spec fn wf(&self) -> bool {
        self.tabelas_ok() && self@.valido()
    }

    /// A record in state `Pronto` with all of its time left, which demands
    /// and holds nothing and has arrival tick zero.
    pub fn new(id: u32, tempo_total: u32, prioridade: i32) -> (p: Processo)
        ensures
            p.wf(),
            p@ == (ModeloProcesso {
                id,
                prioridade,
                tempo_total,
                tempo_restante: tempo_total,
                tempo_chegada: 0,
                estado: EstadoProcesso::Pronto,
                alocados: Map::empty(),
                necessarios: Map::empty(),
            }),
    {
        Processo {
            id,
            prioridade,
            tempo_total,
            tempo_restante: tempo_total,
            tempo_chegada: 0,
            estado: EstadoProcesso::Pronto,
            recursos_alocados: Recursos::new(),
            recursos_necessarios: Recursos::new(),
        }
    }

    /// The record with its demand for `recurso` set to `quantidade`.
    pub fn necessita_recurso(self, recurso: Recurso, quantidade: u32) -> (p: Processo)
        requires
            self.wf(),
            crate::recurso::quantidade(self@.alocados, recurso) <= quantidade,
        ensures
            p.wf(),
            p@ == (ModeloProcesso {
                necessarios: self@.necessarios.insert(recurso, quantidade),
                ..self@
            }),
    {
        let mut p = self;
        p.recursos_necessarios.insert(recurso, quantidade);
        p
    }
}

impl Clone for Processo {
    fn clone(&self) -> (p: Processo)
        ensures
            p@ == self@,
            p.tabelas_ok() == self.tabelas_ok(),
    {
        Processo {
            id: self.id,
            prioridade: self.prioridade,
            tempo_total: self.tempo_total,
            tempo_restante: self.tempo_restante,
            tempo_chegada: self.tempo_chegada,
            estado: self.estado,
            recursos_alocados: self.recursos_alocados.clone(),
            recursos_necessarios: self.recursos_necessarios.clone(),
        }
    }
}

/// The models of the records of `s`, in the same order.
pub open spec fn modelos(s: Seq<Processo>) -> Seq<ModeloProcesso> {
    s.map_values(|p: Processo| p@)
}

/// What the record on a core, if any, holds of `r`.
pub open spec fn retido(p: Option<ModeloProcesso>, r: Recurso) -> nat {
    match p {
        Some(p) => quantidade(p.alocados, r),
        None => 0,
    }
}

/// The model of a core slot.
pub struct ModeloNucleo {
    pub id: u32,
    pub processo_atual: Option<ModeloProcesso>,
    pub tempo_ocioso: u32,
}

/// An execution unit, which runs at most one record at a time.
#[derive(Debug)]
pub struct Nucleo {
    pub id: u32,
    pub processo_atual: Option<Processo>,
    /// The ticks counted as idle so far. A tick leaves the count as it is.
    pub tempo_ocioso: u32,
}

impl View for Nucleo {
    type V = ModeloNucleo;

    open spec fn view(&self) -> ModeloNucleo {
        ModeloNucleo {
            id: self.id,
            processo_atual: match self.processo_atual {
                Some(p) => Some(p@),
                None => None,
            },
            tempo_ocioso: self.tempo_ocioso,
        }
    }
}

impl Nucleo {
    /// The tables of the record on the core, if any, are well formed.
    pub open spec fn tabelas_ok(&self) -> bool {
        match self.processo_atual {
            Some(p) => p.tabelas_ok(),
            None => true,
        }
    }

    /// An idle core.
    pub fn new(id: u32) -> (n: Nucleo)
        ensures
            n.tabelas_ok(),
            n@ == (ModeloNucleo { id, processo_atual: None, tempo_ocioso: 0 }),
    {
        Nucleo { id, processo_atual: None, tempo_ocioso: 0 }
    }
}

impl Clone for Nucleo {
    fn clone(&self) -> (n: Nucleo)
        ensures
            n@ == self@,
            n.tabelas_ok() == self.tabelas_ok(),
    {
        Nucleo {
            id: self.id,
            processo_atual: match &self.processo_atual {
                Some(p) => Some(p.clone()),
                None => None,
            },
            tempo_ocioso: self.tempo_ocioso,
        }
    }
}

/// The models of the cores of `s`, in the same order.
pub open spec fn modelos_nucleos(s: Seq<Nucleo>) -> Seq<ModeloNucleo> {
    s.map_values(|n: Nucleo| n@)
}

} // verus!
