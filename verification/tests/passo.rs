use escalonador::examples::exemplo_deadlock;
use escalonador::{
    AlgoritmoEscalonamento, ErroConfiguracao, EstadoProcesso, Evento, Processo, Recurso, Recursos,
    Sistema,
};

const TIPOS: [Recurso; 5] = [
    Recurso::Impressora,
    Recurso::Scanner,
    Recurso::Disco,
    Recurso::Memoria(1024),
    Recurso::Memoria(2048),
];

fn capacidade(s: &Sistema, r: &Recurso) -> u64 {
    let mut total = s.recursos_disponiveis.quantidade(r) as u64;
    for n in &s.nucleos {
        if let Some(p) = &n.processo_atual {
            total += p.recursos_alocados.quantidade(r) as u64;
        }
    }
    for p in &s.processos {
        total += p.recursos_alocados.quantidade(r) as u64;
    }
    for p in &s.processos_bloqueados {
        total += p.recursos_alocados.quantidade(r) as u64;
    }
    total
}

fn capacidades(s: &Sistema) -> Vec<u64> {
    TIPOS.iter().map(|r| capacidade(s, r)).collect()
}

fn em_execucao(s: &Sistema) -> Vec<Option<u32>> {
    s.nucleos.iter().map(|n| n.processo_atual.as_ref().map(|p| p.id)).collect()
}

fn prontos(s: &Sistema) -> Vec<u32> {
    s.processos.iter().map(|p| p.id).collect()
}

fn bloqueados(s: &Sistema) -> Vec<u32> {
    s.processos_bloqueados.iter().map(|p| p.id).collect()
}

fn alocacao_contida(p: &Processo) -> bool {
    p.recursos_alocados.entradas().iter().all(|(r, q)| {
        p.recursos_necessarios.contains_key(r) && *q <= p.recursos_necessarios.quantidade(r)
    })
}

fn todos_contidos(s: &Sistema) -> bool {
    s.nucleos.iter().filter_map(|n| n.processo_atual.as_ref()).all(alocacao_contida)
        && s.processos.iter().all(alocacao_contida)
        && s.processos_bloqueados.iter().all(alocacao_contida)
}

#[test]
fn construcao_sem_nucleos_e_recusada() {
    assert_eq!(
        Sistema::new(0, 3, AlgoritmoEscalonamento::Prioridade).err(),
        Some(ErroConfiguracao::SemNucleos)
    );
    assert_eq!(
        Sistema::new(0, 0, AlgoritmoEscalonamento::RoundRobin).err(),
        Some(ErroConfiguracao::SemNucleos)
    );
}

#[test]
fn round_robin_exige_quantum() {
    assert_eq!(
        Sistema::new(2, 0, AlgoritmoEscalonamento::RoundRobin).err(),
        Some(ErroConfiguracao::QuantumInvalido)
    );
    assert!(Sistema::new(2, 1, AlgoritmoEscalonamento::RoundRobin).is_ok());
}

#[test]
fn quantum_zero_e_aceito_sem_round_robin() {
    let s = Sistema::new(2, 0, AlgoritmoEscalonamento::Prioridade).unwrap();
    assert_eq!(s.quantum, 0);
    let mut s = Sistema::new(1, 0, AlgoritmoEscalonamento::ShortestJobFirst).unwrap();
    s.adicionar_processo(Processo::new(1, 2, 1));
    s.escalonar();
    s.escalonar();
    assert_eq!(em_execucao(&s), vec![Some(1)]);
}

#[test]
fn nucleos_sao_numerados_do_zero() {
    let s = Sistema::new(3, 1, AlgoritmoEscalonamento::RoundRobin).unwrap();
    let ids: Vec<u32> = s.nucleos.iter().map(|n| n.id).collect();
    assert_eq!(ids, vec![0, 1, 2]);
    assert_eq!(s.nucleos_ocupados(), 0);
    assert!(s.ocioso());
}

#[test]
fn submissao_carimba_a_chegada() {
    let mut s = Sistema::new(1, 5, AlgoritmoEscalonamento::RoundRobin).unwrap();
    s.escalonar();
    s.escalonar();
    let mut p = Processo::new(7, 4, 1);
    p.estado = EstadoProcesso::Concluido;
    s.adicionar_processo(p);
    assert_eq!(s.processos[0].tempo_chegada, 2);
    assert_eq!(s.processos[0].estado, EstadoProcesso::Pronto);
    assert!(s.processos[0].recursos_alocados.is_empty());
    assert!(!s.ocioso());
}

#[test]
fn passo_em_sistema_vazio_so_avanca_o_relogio() {
    let mut s = Sistema::new(2, 1, AlgoritmoEscalonamento::RoundRobin).unwrap();
    let eventos = s.escalonar();
    assert!(eventos.is_empty());
    assert_eq!(s.tempo_global, 1);
    assert_eq!(em_execucao(&s), vec![None, None]);
}

#[test]
fn cenario_preempcao_round_robin() {
    let mut s = Sistema::new(1, 2, AlgoritmoEscalonamento::RoundRobin).unwrap();
    s.adicionar_processo(Processo::new(1, 5, 1));
    s.adicionar_processo(Processo::new(2, 3, 2));

    assert_eq!(s.escalonar(), vec![Evento::Iniciado { tempo: 0, nucleo: 0, processo: 1 }]);
    assert_eq!(em_execucao(&s), vec![Some(1)]);
    assert_eq!(s.nucleos[0].processo_atual.as_ref().unwrap().tempo_restante, 5);

    assert_eq!(s.escalonar(), vec![]);
    assert_eq!(em_execucao(&s), vec![Some(1)]);
    assert_eq!(s.nucleos[0].processo_atual.as_ref().unwrap().tempo_restante, 4);

    assert_eq!(
        s.escalonar(),
        vec![
            Evento::Preemptado { tempo: 2, processo: 1 },
            Evento::Iniciado { tempo: 2, nucleo: 0, processo: 2 },
        ]
    );
    assert_eq!(em_execucao(&s), vec![Some(2)]);
    assert_eq!(prontos(&s), vec![1]);
    assert_eq!(s.processos[0].tempo_restante, 3);
    assert_eq!(s.processos[0].estado, EstadoProcesso::Pronto);
    assert_eq!(s.tempo_global, 3);
}

#[test]
fn cenario_dois_nucleos() {
    let mut s = Sistema::new(2, 5, AlgoritmoEscalonamento::RoundRobin).unwrap();
    s.adicionar_processo(Processo::new(1, 3, 1));
    s.adicionar_processo(Processo::new(2, 2, 2));
    s.adicionar_processo(Processo::new(3, 4, 3));
    let eventos = s.escalonar();
    assert_eq!(
        eventos,
        vec![
            Evento::Iniciado { tempo: 0, nucleo: 0, processo: 1 },
            Evento::Iniciado { tempo: 0, nucleo: 1, processo: 2 },
        ]
    );
    assert_eq!(em_execucao(&s), vec![Some(1), Some(2)]);
    assert_eq!(s.nucleos_ocupados(), 2);
    assert_eq!(prontos(&s), vec![3]);
    assert_eq!(s.nucleos[0].processo_atual.as_ref().unwrap().estado, EstadoProcesso::Executando);
}

#[test]
fn cenario_recurso_esgotado_para_a_atribuicao() {
    let mut s = Sistema::new(1, 5, AlgoritmoEscalonamento::RoundRobin).unwrap();
    s.recursos_disponiveis.insert(Recurso::Impressora, 0);
    assert!(s.escalonar().is_empty());
    s.adicionar_processo(Processo::new(1, 3, 1).necessita_recurso(Recurso::Impressora, 1));
    s.adicionar_processo(Processo::new(2, 3, 1));
    let eventos = s.escalonar();
    assert_eq!(eventos, vec![Evento::Bloqueado { tempo: 1, processo: 1 }]);
    assert_eq!(em_execucao(&s), vec![None]);
    assert_eq!(s.nucleos_ocupados(), 0);
    assert_eq!(prontos(&s), vec![2]);
    assert_eq!(bloqueados(&s), vec![1]);
    assert_eq!(s.processos_bloqueados[0].estado, EstadoProcesso::Bloqueado);
    assert!(s.processos_bloqueados[0].recursos_alocados.is_empty());
    assert_eq!(s.recursos_disponiveis.get(&Recurso::Impressora), Some(&0));
    let eventos = s.escalonar();
    assert_eq!(eventos, vec![Evento::Iniciado { tempo: 2, nucleo: 0, processo: 2 }]);
    assert_eq!(bloqueados(&s), vec![1]);
}

#[test]
fn recurso_esgotado_em_passo_de_verificacao_despeja_a_cabeca() {
    let mut s = Sistema::new(1, 5, AlgoritmoEscalonamento::RoundRobin).unwrap();
    s.recursos_disponiveis.insert(Recurso::Impressora, 0);
    s.adicionar_processo(Processo::new(1, 3, 1).necessita_recurso(Recurso::Impressora, 1));
    s.adicionar_processo(Processo::new(2, 3, 1));
    let eventos = s.escalonar();
    assert_eq!(
        eventos,
        vec![
            Evento::DeadlockRecuperado { tempo: 0, vitima: Some(1) },
            Evento::Iniciado { tempo: 0, nucleo: 0, processo: 2 },
        ]
    );
    assert_eq!(em_execucao(&s), vec![Some(2)]);
    assert!(prontos(&s).is_empty());
    assert!(bloqueados(&s).is_empty());
}

#[test]
fn candidato_sem_recurso_deixa_os_outros_nucleos_vazios() {
    let mut s = Sistema::new(3, 5, AlgoritmoEscalonamento::RoundRobin).unwrap();
    s.escalonar();
    s.adicionar_processo(Processo::new(1, 3, 1));
    s.adicionar_processo(Processo::new(2, 3, 1).necessita_recurso(Recurso::Scanner, 2));
    s.adicionar_processo(Processo::new(3, 3, 1));
    let eventos = s.escalonar();
    assert_eq!(
        eventos,
        vec![
            Evento::Iniciado { tempo: 1, nucleo: 0, processo: 1 },
            Evento::Bloqueado { tempo: 1, processo: 2 },
        ]
    );
    assert_eq!(em_execucao(&s), vec![Some(1), None, None]);
    assert_eq!(prontos(&s), vec![3]);
    let eventos = s.escalonar();
    assert_eq!(eventos, vec![Evento::Iniciado { tempo: 2, nucleo: 1, processo: 3 }]);
    assert_eq!(em_execucao(&s), vec![Some(1), Some(3), None]);
    assert_eq!(bloqueados(&s), vec![2]);
}

#[test]
fn cenario_sem_deadlock_com_pedidos_atomicos() {
    let mut s = exemplo_deadlock();
    assert!(!s.verificar_deadlock());
    let antes = capacidades(&s);

    let eventos = s.escalonar();
    assert_eq!(
        eventos,
        vec![
            Evento::Iniciado { tempo: 0, nucleo: 0, processo: 1 },
            Evento::Bloqueado { tempo: 0, processo: 2 },
        ]
    );
    assert_eq!(em_execucao(&s), vec![Some(1), None]);
    assert_eq!(bloqueados(&s), vec![2]);
    assert_eq!(s.processos_bloqueados[0].estado, EstadoProcesso::Bloqueado);
    assert!(s.processos_bloqueados[0].recursos_alocados.is_empty());
    let rodando = s.nucleos[0].processo_atual.as_ref().unwrap();
    assert_eq!(rodando.recursos_alocados.get(&Recurso::Impressora), Some(&1));
    assert_eq!(rodando.recursos_alocados.get(&Recurso::Scanner), Some(&1));
    assert_eq!(rodando.recursos_alocados.len(), 2);

    let mut todos = eventos;
    let mut passos = 1;
    while !s.ocioso() {
        assert!(passos < 40);
        todos.extend(s.escalonar());
        passos += 1;
        assert!(s.nucleos_ocupados() <= 1);
        assert_eq!(capacidades(&s), antes);
        assert!(todos_contidos(&s));
    }
    assert!(todos.iter().all(|e| !matches!(e, Evento::DeadlockRecuperado { .. })));
    assert_eq!(
        todos,
        vec![
            Evento::Iniciado { tempo: 0, nucleo: 0, processo: 1 },
            Evento::Bloqueado { tempo: 0, processo: 2 },
            Evento::Preemptado { tempo: 3, processo: 1 },
            Evento::Iniciado { tempo: 3, nucleo: 0, processo: 1 },
            Evento::Concluido { tempo: 6, processo: 1 },
            Evento::Desbloqueado { tempo: 6, processo: 2 },
            Evento::Iniciado { tempo: 7, nucleo: 0, processo: 2 },
            Evento::Preemptado { tempo: 9, processo: 2 },
            Evento::Iniciado { tempo: 9, nucleo: 0, processo: 2 },
            Evento::Preemptado { tempo: 12, processo: 2 },
            Evento::Iniciado { tempo: 12, nucleo: 0, processo: 2 },
            Evento::Concluido { tempo: 13, processo: 2 },
        ]
    );
    assert_eq!(s.tempo_global, 14);
    assert!(!s.verificar_deadlock());
    assert_eq!(s.recursos_disponiveis.get(&Recurso::Impressora), Some(&1));
    assert_eq!(s.recursos_disponiveis.get(&Recurso::Scanner), Some(&1));
}

#[test]
fn registro_que_espera_pelo_que_outro_usa_conta_como_preso() {
    let mut s = exemplo_deadlock();
    s.escalonar();
    assert_eq!(bloqueados(&s), vec![2]);
    assert!(s.verificar_deadlock());
}

#[test]
fn conclusao_devolve_os_recursos() {
    let mut s = Sistema::new(1, 1, AlgoritmoEscalonamento::Prioridade).unwrap();
    s.adicionar_processo(Processo::new(1, 1, 1).necessita_recurso(Recurso::Disco, 2));
    assert_eq!(s.escalonar(), vec![Evento::Iniciado { tempo: 0, nucleo: 0, processo: 1 }]);
    assert_eq!(s.recursos_disponiveis.get(&Recurso::Disco), Some(&1));
    assert_eq!(s.escalonar(), vec![]);
    assert_eq!(s.nucleos[0].processo_atual.as_ref().unwrap().tempo_restante, 0);
    assert_eq!(s.escalonar(), vec![Evento::Concluido { tempo: 2, processo: 1 }]);
    assert_eq!(s.recursos_disponiveis.get(&Recurso::Disco), Some(&3));
    assert!(s.ocioso());
}

#[test]
fn registro_de_tempo_zero_conclui_no_passo_seguinte() {
    let mut s = Sistema::new(1, 1, AlgoritmoEscalonamento::RoundRobin).unwrap();
    s.adicionar_processo(Processo::new(1, 0, 1));
    assert_eq!(s.escalonar(), vec![Evento::Iniciado { tempo: 0, nucleo: 0, processo: 1 }]);
    assert_eq!(s.escalonar(), vec![Evento::Concluido { tempo: 1, processo: 1 }]);
    assert!(s.ocioso());
}

#[test]
fn sem_round_robin_nao_ha_preempcao() {
    for algoritmo in [AlgoritmoEscalonamento::Prioridade, AlgoritmoEscalonamento::ShortestJobFirst] {
        let mut s = Sistema::new(1, 1, algoritmo).unwrap();
        s.adicionar_processo(Processo::new(1, 6, 1));
        s.adicionar_processo(Processo::new(2, 6, 1));
        let eventos = s.executar(30);
        assert!(eventos.iter().all(|e| !matches!(e, Evento::Preemptado { .. })));
        assert!(s.ocioso());
    }
}

#[test]
fn preempcao_conta_a_partir_da_chegada() {
    let mut s = Sistema::new(1, 3, AlgoritmoEscalonamento::RoundRobin).unwrap();
    s.escalonar();
    s.adicionar_processo(Processo::new(1, 20, 1));
    let mut preempcoes = Vec::new();
    for _ in 0..9 {
        for e in s.escalonar() {
            if let Evento::Preemptado { tempo, processo } = e {
                assert_eq!(processo, 1);
                preempcoes.push(tempo);
            }
        }
    }
    assert_eq!(preempcoes, vec![4, 7]);
}

#[test]
fn quantum_um_preempta_a_cada_passo() {
    let mut s = Sistema::new(1, 1, AlgoritmoEscalonamento::RoundRobin).unwrap();
    s.adicionar_processo(Processo::new(1, 3, 1));
    s.adicionar_processo(Processo::new(2, 3, 1));
    s.escalonar();
    assert_eq!(
        s.escalonar(),
        vec![
            Evento::Preemptado { tempo: 1, processo: 1 },
            Evento::Iniciado { tempo: 1, nucleo: 0, processo: 2 },
        ]
    );
    assert_eq!(
        s.escalonar(),
        vec![
            Evento::Preemptado { tempo: 2, processo: 2 },
            Evento::Iniciado { tempo: 2, nucleo: 0, processo: 1 },
        ]
    );
    assert_eq!(prontos(&s), vec![2]);
}

#[test]
fn preemptado_devolve_os_recursos_e_volta_ao_fim_da_fila() {
    let mut s = Sistema::new(1, 1, AlgoritmoEscalonamento::RoundRobin).unwrap();
    s.adicionar_processo(Processo::new(1, 5, 1).necessita_recurso(Recurso::Scanner, 1));
    s.adicionar_processo(Processo::new(2, 5, 1).necessita_recurso(Recurso::Scanner, 1));
    s.adicionar_processo(Processo::new(3, 5, 1));
    s.escalonar();
    assert_eq!(s.recursos_disponiveis.get(&Recurso::Scanner), Some(&0));
    s.escalonar();
    assert_eq!(em_execucao(&s), vec![Some(2)]);
    assert_eq!(prontos(&s), vec![3, 1]);
    assert!(s.processos[1].recursos_alocados.is_empty());
    assert_eq!(s.recursos_disponiveis.get(&Recurso::Scanner), Some(&0));
    let rodando = s.nucleos[0].processo_atual.as_ref().unwrap();
    assert_eq!(rodando.recursos_alocados.get(&Recurso::Scanner), Some(&1));
}

#[test]
fn desbloqueados_entram_na_frente_e_o_ultimo_primeiro() {
    let mut s = Sistema::new(1, 1, AlgoritmoEscalonamento::Prioridade).unwrap();
    s.recursos_disponiveis.insert(Recurso::Scanner, 0);
    s.recursos_disponiveis.insert(Recurso::Impressora, 0);
    for (id, r) in [(1, Recurso::Scanner), (2, Recurso::Impressora), (3, Recurso::Scanner)] {
        let mut p = Processo::new(id, 5, 1).necessita_recurso(r, 1);
        p.estado = EstadoProcesso::Bloqueado;
        s.processos_bloqueados.push(p);
    }
    s.adicionar_processo(Processo::new(4, 5, 1).necessita_recurso(Recurso::Impressora, 1));
    s.recursos_disponiveis.insert(Recurso::Scanner, 1);
    s.tempo_global = 1;
    let eventos = s.escalonar();
    assert_eq!(
        eventos,
        vec![
            Evento::Bloqueado { tempo: 1, processo: 4 },
            Evento::Desbloqueado { tempo: 1, processo: 1 },
            Evento::Desbloqueado { tempo: 1, processo: 3 },
        ]
    );
    assert_eq!(prontos(&s), vec![3, 1]);
    assert_eq!(bloqueados(&s), vec![2, 4]);
    assert!(s.processos.iter().all(|p| p.estado == EstadoProcesso::Pronto));
    assert_eq!(s.recursos_disponiveis.get(&Recurso::Scanner), Some(&1));
}

#[test]
fn recuperacao_despeja_a_cabeca_da_fila() {
    let mut s = Sistema::new(1, 1, AlgoritmoEscalonamento::RoundRobin).unwrap();
    s.adicionar_processo(Processo::new(1, 5, 1));
    s.adicionar_processo(Processo::new(2, 5, 1).necessita_recurso(Recurso::Scanner, 9));
    assert!(s.verificar_deadlock());
    let eventos = s.escalonar();
    assert_eq!(
        eventos,
        vec![
            Evento::DeadlockRecuperado { tempo: 0, vitima: Some(1) },
            Evento::Bloqueado { tempo: 0, processo: 2 },
        ]
    );
    assert_eq!(em_execucao(&s), vec![None]);
    assert_eq!(prontos(&s), Vec::<u32>::new());
    assert_eq!(bloqueados(&s), vec![2]);
}

#[test]
fn recuperacao_sem_prontos_nao_tem_vitima() {
    let mut s = Sistema::new(1, 1, AlgoritmoEscalonamento::RoundRobin).unwrap();
    let mut p = Processo::new(1, 5, 1).necessita_recurso(Recurso::Scanner, 9);
    p.estado = EstadoProcesso::Bloqueado;
    s.processos_bloqueados.push(p);
    let eventos = s.escalonar();
    assert_eq!(eventos, vec![Evento::DeadlockRecuperado { tempo: 0, vitima: None }]);
    assert_eq!(bloqueados(&s), vec![1]);
}

#[test]
fn a_verificacao_so_corre_a_cada_dez_passos() {
    let mut s = Sistema::new(1, 1, AlgoritmoEscalonamento::Prioridade).unwrap();
    s.escalonar();
    s.adicionar_processo(Processo::new(1, 1, 1));
    s.adicionar_processo(Processo::new(2, 1, 1).necessita_recurso(Recurso::Scanner, 9));
    let mut recuperacoes = Vec::new();
    for _ in 0..25 {
        for e in s.escalonar() {
            if let Evento::DeadlockRecuperado { tempo, vitima } = e {
                recuperacoes.push((tempo, vitima));
            }
        }
    }
    assert_eq!(recuperacoes, vec![(10, None), (20, None)]);
}

#[test]
fn prioridade_atribui_do_mais_urgente_ao_menos() {
    let mut s = Sistema::new(2, 1, AlgoritmoEscalonamento::Prioridade).unwrap();
    s.adicionar_processo(Processo::new(1, 5, 1));
    s.adicionar_processo(Processo::new(2, 5, 9));
    s.adicionar_processo(Processo::new(3, 5, 4));
    let eventos = s.escalonar();
    assert_eq!(
        eventos,
        vec![
            Evento::Iniciado { tempo: 0, nucleo: 0, processo: 2 },
            Evento::Iniciado { tempo: 0, nucleo: 1, processo: 3 },
        ]
    );
    assert_eq!(prontos(&s), vec![1]);
}

#[test]
fn menor_tempo_atribui_do_mais_curto_ao_mais_longo() {
    let mut s = Sistema::new(2, 1, AlgoritmoEscalonamento::ShortestJobFirst).unwrap();
    s.adicionar_processo(Processo::new(1, 7, 1));
    s.adicionar_processo(Processo::new(2, 3, 1));
    s.adicionar_processo(Processo::new(3, 5, 1));
    s.escalonar();
    assert_eq!(em_execucao(&s), vec![Some(2), Some(3)]);
    assert_eq!(prontos(&s), vec![1]);
}

#[test]
fn executar_para_quando_tudo_terminou() {
    let mut s = Sistema::new(1, 5, AlgoritmoEscalonamento::RoundRobin).unwrap();
    s.adicionar_processo(Processo::new(1, 2, 1));
    let eventos = s.executar(100);
    assert_eq!(
        eventos,
        vec![
            Evento::Iniciado { tempo: 0, nucleo: 0, processo: 1 },
            Evento::Concluido { tempo: 3, processo: 1 },
        ]
    );
    assert_eq!(s.tempo_global, 4);
    assert!(s.ocioso());
    assert!(s.executar(5).is_empty());
    assert_eq!(s.tempo_global, 4);
}

#[test]
fn executar_respeita_o_limite_de_passos() {
    let mut s = Sistema::new(1, 5, AlgoritmoEscalonamento::Prioridade).unwrap();
    s.adicionar_processo(Processo::new(1, 50, 1));
    s.executar(3);
    assert_eq!(s.tempo_global, 3);
    assert_eq!(s.nucleos[0].processo_atual.as_ref().unwrap().tempo_restante, 48);
    assert!(s.executar(0).is_empty());
    assert_eq!(s.tempo_global, 3);
}

#[test]
fn escalonar_interativo_e_um_passo() {
    let mut a = Sistema::new(2, 2, AlgoritmoEscalonamento::RoundRobin).unwrap();
    let mut b = Sistema::new(2, 2, AlgoritmoEscalonamento::RoundRobin).unwrap();
    for s in [&mut a, &mut b] {
        s.adicionar_processo(Processo::new(1, 3, 1).necessita_recurso(Recurso::Disco, 1));
        s.adicionar_processo(Processo::new(2, 3, 1));
    }
    for _ in 0..6 {
        assert_eq!(a.escalonar(), b.escalonar_interativo());
        assert_eq!(em_execucao(&a), em_execucao(&b));
        assert_eq!(a.tempo_global, b.tempo_global);
    }
}

#[test]
fn a_capacidade_se_conserva_a_cada_passo() {
    let mut s = Sistema::new(3, 2, AlgoritmoEscalonamento::RoundRobin).unwrap();
    let demandas = [
        vec![(Recurso::Memoria(1024), 5), (Recurso::Disco, 2)],
        vec![(Recurso::Memoria(1024), 4), (Recurso::Impressora, 2)],
        vec![(Recurso::Scanner, 1)],
        vec![(Recurso::Disco, 3), (Recurso::Scanner, 1)],
        vec![(Recurso::Memoria(2048), 1)],
        vec![],
    ];
    for (i, demanda) in demandas.iter().enumerate() {
        let mut p = Processo::new(i as u32 + 1, 3 + i as u32, 1);
        for (r, q) in demanda {
            p = p.necessita_recurso(*r, *q);
        }
        s.adicionar_processo(p);
    }
    let antes = capacidades(&s);
    assert_eq!(antes, vec![2, 1, 3, 8, 0]);
    for _ in 0..40 {
        s.escalonar();
        assert_eq!(capacidades(&s), antes);
        assert!(todos_contidos(&s));
        for n in &s.nucleos {
            if let Some(p) = &n.processo_atual {
                assert_eq!(p.recursos_alocados.entradas(), p.recursos_necessarios.entradas());
                assert!(p.tempo_restante <= p.tempo_total);
            }
        }
        assert!(s.processos.iter().all(|p| p.recursos_alocados.is_empty()));
        assert!(s.processos_bloqueados.iter().all(|p| p.recursos_alocados.is_empty()));
    }
}

#[test]
fn alocar_e_liberar_pelo_sistema() {
    let mut s = Sistema::new(1, 1, AlgoritmoEscalonamento::RoundRobin).unwrap();
    let mut p = Processo::new(1, 5, 1).necessita_recurso(Recurso::Disco, 2);
    assert!(s.pode_alocar_recursos(&p));
    assert!(s.alocar_recursos(&p));
    assert_eq!(s.recursos_disponiveis.get(&Recurso::Disco), Some(&1));
    assert!(!s.pode_alocar_recursos(&p));
    assert!(!s.alocar_recursos(&p));
    assert_eq!(s.recursos_disponiveis.get(&Recurso::Disco), Some(&1));
    let mut retido = Recursos::new();
    retido.insert(Recurso::Disco, 2);
    p.recursos_alocados = retido;
    s.liberar_recursos(&p);
    assert_eq!(s.recursos_disponiveis.get(&Recurso::Disco), Some(&3));
    s.liberar_recursos(&Processo::new(2, 1, 1));
    assert_eq!(s.recursos_disponiveis.get(&Recurso::Disco), Some(&3));
}

#[test]
fn simulacoes_independentes_nao_se_tocam() {
    let mut a = Sistema::new(1, 1, AlgoritmoEscalonamento::RoundRobin).unwrap();
    let b = Sistema::new(1, 1, AlgoritmoEscalonamento::RoundRobin).unwrap();
    a.adicionar_processo(Processo::new(1, 5, 1).necessita_recurso(Recurso::Disco, 3));
    a.escalonar();
    assert_eq!(a.recursos_disponiveis.get(&Recurso::Disco), Some(&0));
    assert_eq!(b.recursos_disponiveis.get(&Recurso::Disco), Some(&3));
    assert_eq!(b.tempo_global, 0);
}

#[test]
fn instantaneo_copia_o_que_se_le() {
    let mut s = Sistema::new(2, 2, AlgoritmoEscalonamento::RoundRobin).unwrap();
    s.escalonar();
    s.adicionar_processo(Processo::new(1, 4, 1).necessita_recurso(Recurso::Disco, 2));
    s.adicionar_processo(Processo::new(2, 4, 1).necessita_recurso(Recurso::Disco, 2));
    s.adicionar_processo(Processo::new(3, 4, 1));
    s.escalonar();
    let v = s.instantaneo();
    assert_eq!(v.tempo_global, 2);
    let nucleos: Vec<(u32, Option<u32>, u32)> = v
        .nucleos
        .iter()
        .map(|n| (n.id, n.processo_atual.as_ref().map(|p| p.id), n.tempo_ocioso))
        .collect();
    assert_eq!(nucleos, vec![(0, Some(1), 0), (1, None, 0)]);
    assert_eq!(v.prontos.iter().map(|p| p.id).collect::<Vec<u32>>(), vec![3]);
    assert_eq!(v.bloqueados.iter().map(|p| p.id).collect::<Vec<u32>>(), vec![2]);
    assert_eq!(v.disponiveis.get(&Recurso::Disco), Some(&1));
    assert_eq!(v.disponiveis.entradas(), s.recursos_disponiveis.entradas());
    let rodando = v.nucleos[0].processo_atual.as_ref().unwrap();
    assert_eq!(rodando.recursos_alocados.get(&Recurso::Disco), Some(&2));
    assert_eq!(rodando.tempo_chegada, 1);
    s.escalonar();
    assert_eq!(v.tempo_global, 2);
    assert_eq!(v.prontos.len(), 1);
}
