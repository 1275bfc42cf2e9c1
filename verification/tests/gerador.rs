use escalonador::examples::{
    exemplo_complexo, exemplo_deadlock, exemplo_multinucleo, exemplo_multinucleo_com,
    exemplo_prioridade, exemplo_round_robin,
};
use escalonador::gerador::{
    adicionar_processo_manual, gerar_processo_aleatorio, processo_manual, processo_sorteado,
    sortear_processo, Sorteio,
};
use escalonador::{AlgoritmoEscalonamento, EstadoProcesso, Processo, Recurso, Sistema};

fn demanda(p: &Processo) -> Vec<(Recurso, u32)> {
    p.recursos_necessarios.entradas()
}

#[test]
fn exemplo_round_robin_tem_quatro_registros() {
    let s = exemplo_round_robin();
    assert_eq!(s.nucleos.len(), 2);
    assert_eq!(s.quantum, 3);
    assert_eq!(s.algoritmo, AlgoritmoEscalonamento::RoundRobin);
    let resumo: Vec<(u32, u32, i32)> =
        s.processos.iter().map(|p| (p.id, p.tempo_total, p.prioridade)).collect();
    assert_eq!(resumo, vec![(1, 2, 1), (2, 4, 1), (3, 6, 1), (4, 8, 1)]);
    for p in &s.processos {
        assert_eq!(demanda(p), vec![(Recurso::Memoria(1024), 1)]);
        assert_eq!(p.tempo_restante, p.tempo_total);
        assert_eq!(p.estado, EstadoProcesso::Pronto);
    }
}

#[test]
fn exemplo_prioridade_tem_as_prioridades_dadas() {
    let s = exemplo_prioridade();
    assert_eq!(s.nucleos.len(), 2);
    assert_eq!(s.algoritmo, AlgoritmoEscalonamento::Prioridade);
    let resumo: Vec<(u32, u32, i32)> =
        s.processos.iter().map(|p| (p.id, p.tempo_total, p.prioridade)).collect();
    assert_eq!(resumo, vec![(1, 4, 3), (2, 4, 1), (3, 4, 4), (4, 4, 2)]);
    assert_eq!(s.escolher_proximo_processo().unwrap().id, 3);
}

#[test]
fn exemplo_deadlock_tem_recursos_escassos() {
    let s = exemplo_deadlock();
    assert_eq!(s.nucleos.len(), 2);
    assert_eq!(s.quantum, 3);
    assert_eq!(
        s.recursos_disponiveis.entradas(),
        vec![
            (Recurso::Impressora, 1),
            (Recurso::Scanner, 1),
            (Recurso::Disco, 3),
            (Recurso::Memoria(1024), 8),
        ]
    );
    assert_eq!(s.processos.len(), 2);
    assert_eq!(demanda(&s.processos[0]), vec![(Recurso::Impressora, 1), (Recurso::Scanner, 1)]);
    assert_eq!(demanda(&s.processos[1]), vec![(Recurso::Scanner, 1), (Recurso::Impressora, 1)]);
    assert_eq!(s.processos[0].tempo_total, 5);
    assert_eq!(s.processos[1].tempo_total, 5);
}

#[test]
fn exemplo_complexo_tem_demandas_mistas() {
    let s = exemplo_complexo();
    assert_eq!(s.nucleos.len(), 3);
    assert_eq!(s.quantum, 4);
    let resumo: Vec<(u32, u32, i32)> =
        s.processos.iter().map(|p| (p.id, p.tempo_total, p.prioridade)).collect();
    assert_eq!(resumo, vec![(1, 6, 2), (2, 4, 1), (3, 8, 3), (4, 3, 2)]);
    assert_eq!(demanda(&s.processos[0]), vec![(Recurso::Memoria(1024), 2), (Recurso::Disco, 1)]);
    assert_eq!(
        demanda(&s.processos[1]),
        vec![(Recurso::Memoria(1024), 1), (Recurso::Impressora, 1)]
    );
    assert_eq!(demanda(&s.processos[2]), vec![(Recurso::Memoria(1024), 4), (Recurso::Scanner, 1)]);
    assert_eq!(demanda(&s.processos[3]), vec![(Recurso::Memoria(1024), 1)]);
}

#[test]
fn exemplo_multinucleo_com_tempos_dados() {
    let s = exemplo_multinucleo_com(&vec![9, 1, 5]);
    assert_eq!(s.nucleos.len(), 4);
    assert_eq!(s.quantum, 2);
    assert_eq!(s.algoritmo, AlgoritmoEscalonamento::ShortestJobFirst);
    let resumo: Vec<(u32, u32, i32)> =
        s.processos.iter().map(|p| (p.id, p.tempo_total, p.prioridade)).collect();
    assert_eq!(resumo, vec![(1, 9, 1), (2, 1, 1), (3, 5, 1)]);
    assert_eq!(s.escolher_proximo_processo().unwrap().id, 2);
    assert!(exemplo_multinucleo_com(&vec![]).processos.is_empty());
}

#[test]
fn exemplo_multinucleo_sorteia_oito_tempos() {
    let mut vistos = std::collections::BTreeSet::new();
    for _ in 0..40 {
        let s = exemplo_multinucleo();
        assert_eq!(s.nucleos.len(), 4);
        assert_eq!(s.processos.len(), 8);
        for (i, p) in s.processos.iter().enumerate() {
            assert_eq!(p.id, i as u32 + 1);
            assert!(1 <= p.tempo_total && p.tempo_total < 10);
            assert_eq!(p.tempo_restante, p.tempo_total);
            assert_eq!(p.prioridade, 1);
            assert_eq!(demanda(p), vec![(Recurso::Memoria(1024), 1)]);
            vistos.insert(p.tempo_total);
        }
    }
    assert!(vistos.len() > 1);
}

#[test]
fn sorteio_fica_nos_limites_e_varia() {
    let mut tempos = std::collections::BTreeSet::new();
    for _ in 0..300 {
        let s = sortear_processo();
        assert!(1 <= s.tempo_total && s.tempo_total < 20);
        assert!(1 <= s.prioridade && s.prioridade < 10);
        assert!(1 <= s.memoria && s.memoria < 4);
        assert!(s.disco < 2);
        assert_eq!(s.impressora, 0);
        assert_eq!(s.scanner, 0);
        tempos.insert(s.tempo_total);
    }
    assert!(tempos.len() > 1);
}

#[test]
fn processo_sorteado_pede_so_o_que_saiu() {
    let s = Sorteio { tempo_total: 7, prioridade: 4, memoria: 3, disco: 0, impressora: 2, scanner: 0 };
    let p = processo_sorteado(11, s);
    assert_eq!(p.id, 11);
    assert_eq!(p.tempo_total, 7);
    assert_eq!(p.tempo_restante, 7);
    assert_eq!(p.prioridade, 4);
    assert_eq!(p.estado, EstadoProcesso::Pronto);
    assert_eq!(demanda(&p), vec![(Recurso::Memoria(1024), 3), (Recurso::Impressora, 2)]);
    assert!(p.recursos_alocados.is_empty());

    let s = Sorteio { tempo_total: 1, prioridade: 1, memoria: 0, disco: 1, impressora: 0, scanner: 1 };
    assert_eq!(demanda(&processo_sorteado(1, s)), vec![(Recurso::Disco, 1), (Recurso::Scanner, 1)]);
}

#[test]
fn gerar_processo_aleatorio_conta_e_submete() {
    let mut s = Sistema::new(1, 1, AlgoritmoEscalonamento::RoundRobin).unwrap();
    s.escalonar();
    let mut contador = 41;
    gerar_processo_aleatorio(&mut s, &mut contador);
    gerar_processo_aleatorio(&mut s, &mut contador);
    assert_eq!(contador, 43);
    assert_eq!(s.processos.len(), 2);
    assert_eq!(s.processos[0].id, 42);
    assert_eq!(s.processos[1].id, 43);
    for p in &s.processos {
        assert!(1 <= p.tempo_total && p.tempo_total < 20);
        assert!(1 <= p.prioridade && p.prioridade < 10);
        assert_eq!(p.tempo_chegada, 1);
        let memoria = p.recursos_necessarios.quantidade(&Recurso::Memoria(1024));
        assert!(1 <= memoria && memoria < 4);
        assert!(p.recursos_necessarios.quantidade(&Recurso::Disco) < 2);
        assert!(!p.recursos_necessarios.contains_key(&Recurso::Impressora));
        assert!(!p.recursos_necessarios.contains_key(&Recurso::Scanner));
        assert_ne!(p.recursos_necessarios.get(&Recurso::Disco), Some(&0));
    }
}

#[test]
fn processo_manual_pede_memoria_se_houver() {
    let p = processo_manual(3, 12, 7, 2);
    assert_eq!((p.id, p.tempo_total, p.tempo_restante, p.prioridade), (3, 12, 12, 7));
    assert_eq!(demanda(&p), vec![(Recurso::Memoria(1024), 2)]);
    assert!(demanda(&processo_manual(4, 12, 7, 0)).is_empty());
}

#[test]
fn adicionar_processo_manual_conta_e_submete() {
    let mut s = Sistema::new(1, 1, AlgoritmoEscalonamento::RoundRobin).unwrap();
    let mut contador = 0;
    adicionar_processo_manual(&mut s, &mut contador, 5, 5, 1);
    assert_eq!(contador, 1);
    assert_eq!(s.processos.len(), 1);
    assert_eq!(s.processos[0].id, 1);
    assert_eq!(demanda(&s.processos[0]), vec![(Recurso::Memoria(1024), 1)]);
}
