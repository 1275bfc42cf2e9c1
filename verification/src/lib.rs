//! A discrete-time simulator of a multi-core scheduler with contended
//! resources: a resource ledger, a ready queue and a blocked set, pluggable
//! selection policies, and a periodic safety check with crude recovery.

pub mod escalonador;
pub mod entrada;
pub mod evento;
pub mod examples;
pub mod gerador;
pub mod invariantes;
pub mod leis;
pub mod modelo;
pub mod politica;
pub mod processo;
pub mod recurso;
pub mod seguranca;
pub mod sessao;
pub mod sistema;

pub use evento::Evento;
pub use politica::AlgoritmoEscalonamento;
pub use processo::{EstadoProcesso, Nucleo, Processo};
pub use recurso::{Recurso, Recursos};
pub use sistema::{ErroConfiguracao, Instantaneo, Sistema};
