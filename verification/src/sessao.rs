//! The decisions of an interactive session: what a key means, and what
//! the session does next. Reading keys, waiting and printing are left to
//! the caller.

use crate::modelo::{ModeloSistema, PERIODO_VERIFICACAO};
use crate::politica::AlgoritmoEscalonamento;
use crate::recurso::Recurso;
use crate::sistema::{estado_inicial, ErroConfiguracao, Sistema};
use vstd::prelude::*;

verus! {

/// What the user asks of a running session.
#[derive(Debug, Clone, Copy, PartialEq, Eq, Structural)]
pub enum Comando {
    Sair,
    Estatisticas,
    Pausa,
    Adicionar,
    /// The enter key: go on.
    Continuar,
}

/// What the session does next.
#[derive(Debug, Clone, Copy, PartialEq, Eq, Structural)]
pub enum Acao {
    /// End the session.
    Encerrar,
    /// Show the detailed statistics.
    MostrarEstatisticas,
    /// Tell the user that the session is now paused, or running again.
    AnunciarPausa { pausado: bool },
    /// Ask the user for a record and submit it.
    AdicionarManual,
    /// The session is paused: wait a moment.
    Aguardar,
    /// Run one tick, after generating a record where `gerar` is set.
    Avancar { gerar: bool },
}

/// The quantum of a simulator whose policy never preempts.
pub const QUANTUM_SEM_PREEMPCAO: u32 = 1;

/// The command that a key stands for: `q`, `s`, `p` and `a` in either case,
/// and the line feed. Other keys stand for nothing.
pub open spec fn comando_da_tecla(c: char) -> Option<Comando> {
    if c == 'q' || c == 'Q' {
        Some(Comando::Sair)
    } else if c == 's' || c == 'S' {
        Some(Comando::Estatisticas)
    } else if c == 'p' || c == 'P' {
        Some(Comando::Pausa)
    } else if c == 'a' || c == 'A' {
        Some(Comando::Adicionar)
    } else if c == '\n' {
        Some(Comando::Continuar)
    } else {
        None
    }
}

/// The command that the byte `b`, read from the keyboard, stands for: see
/// [`comando_da_tecla`].
pub fn comando_de_byte(b: u8) -> (c: Option<Comando>)
    ensures
        c == comando_da_tecla(b as char),
{
    let tecla = b as char;
    match tecla {
        'q' | 'Q' => Some(Comando::Sair),
        's' | 'S' => Some(Comando::Estatisticas),
        'p' | 'P' => Some(Comando::Pausa),
        'a' | 'A' => Some(Comando::Adicionar),
        '\n' => Some(Comando::Continuar),
        _ => None,
    }
}

/// The policy that a menu option stands for: one for `RoundRobin`, two for
/// `Prioridade`, three for `ShortestJobFirst`.
pub fn algoritmo_da_opcao(opcao: usize) -> (a: Option<AlgoritmoEscalonamento>)
    ensures
        a == (if opcao == 1 {
            Some(AlgoritmoEscalonamento::RoundRobin)
        } else if opcao == 2 {
            Some(AlgoritmoEscalonamento::Prioridade)
        } else if opcao == 3 {
            Some(AlgoritmoEscalonamento::ShortestJobFirst)
        } else {
            None::<AlgoritmoEscalonamento>
        }),
{
    match opcao {
        1 => Some(AlgoritmoEscalonamento::RoundRobin),
        2 => Some(AlgoritmoEscalonamento::Prioridade),
        3 => Some(AlgoritmoEscalonamento::ShortestJobFirst),
        _ => None,
    }
}

/// Whether the user is asked for a quantum: only under `RoundRobin`. Under
/// the other policies the quantum is [`QUANTUM_SEM_PREEMPCAO`].
pub fn pede_quantum(algoritmo: AlgoritmoEscalonamento) -> (b: bool)
    ensures
        b == (algoritmo == AlgoritmoEscalonamento::RoundRobin),
{
    algoritmo == AlgoritmoEscalonamento::RoundRobin
}

/// A new simulator with the arrival rate that the user chose.
pub fn configurar_sistema(
    num_nucleos: u32,
    algoritmo: AlgoritmoEscalonamento,
    quantum: u32,
    taxa_chegada: u32,
) -> (r: Result<Sistema, ErroConfiguracao>)
    ensures
        match r {
            Ok(s) => {
                &&& num_nucleos > 0
                &&& algoritmo == AlgoritmoEscalonamento::RoundRobin ==> quantum >= 1
                &&& s.wf()
                &&& s@ == (ModeloSistema {
                    taxa_chegada,
                    ..estado_inicial(num_nucleos, quantum, algoritmo)
                })
            },
            Err(ErroConfiguracao::SemNucleos) => num_nucleos == 0,
            Err(ErroConfiguracao::QuantumInvalido) => {
                &&& num_nucleos > 0
                &&& algoritmo == AlgoritmoEscalonamento::RoundRobin
                &&& quantum == 0
            },
        },
{
    match Sistema::new(num_nucleos, quantum, algoritmo) {
        Ok(s) => {
            let mut s = s;
            let ghost antes = s@;
            s.taxa_chegada_processos = taxa_chegada;
            proof {
                assert forall|r: Recurso| #[trigger]
                    s@.capacidade(r) <= u32::MAX by {
                    assert(antes.capacidade(r) <= u32::MAX);
                }
            }
            Ok(s)
        },
        Err(e) => Err(e),
    }
}

/// What the session does next, and whether it is paused afterwards. A
/// command comes first: leaving, the statistics and a record entered by
/// hand leave the pause as it is, and the pause key turns it over. Without
/// such a command a paused session waits, and a running one runs a tick,
/// generating a record first where the interval since the last one is
/// over.
pub open spec fn decisao(pausado: bool, comando: Option<Comando>, intervalo_vencido: bool) -> (
    bool,
    Acao,
) {
    match comando {
        Some(Comando::Sair) => (pausado, Acao::Encerrar),
        Some(Comando::Estatisticas) => (pausado, Acao::MostrarEstatisticas),
        Some(Comando::Pausa) => (!pausado, Acao::AnunciarPausa { pausado: !pausado }),
        Some(Comando::Adicionar) => (pausado, Acao::AdicionarManual),
        _ => if pausado {
            (pausado, Acao::Aguardar)
        } else {
            (pausado, Acao::Avancar { gerar: intervalo_vencido })
        },
    }
}

/// The next step of the session: see [`decisao`].
pub fn decidir(pausado: bool, comando: Option<Comando>, intervalo_vencido: bool) -> (r: (bool, Acao))
    ensures
        r == decisao(pausado, comando, intervalo_vencido),
{
    match comando {
        Some(Comando::Sair) => (pausado, Acao::Encerrar),
        Some(Comando::Estatisticas) => (pausado, Acao::MostrarEstatisticas),
        Some(Comando::Pausa) => (!pausado, Acao::AnunciarPausa { pausado: !pausado }),
        Some(Comando::Adicionar) => (pausado, Acao::AdicionarManual),
        _ => if pausado {
            (pausado, Acao::Aguardar)
        } else {
            (pausado, Acao::Avancar { gerar: intervalo_vencido })
        },
    }
}

/// Whether the short status line is due after a tick: whenever the clock
/// stands at a multiple of [`PERIODO_VERIFICACAO`].
pub fn deve_mostrar_status(tempo_global: u32) -> (b: bool)
    ensures
        b == (tempo_global % PERIODO_VERIFICACAO == 0),
{
    tempo_global % PERIODO_VERIFICACAO == 0
}

} // verus!
