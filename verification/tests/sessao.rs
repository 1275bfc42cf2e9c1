use escalonador::entrada::{analisar, interpretar_entrada, validar_entrada};
use escalonador::sessao::{
    algoritmo_da_opcao, comando_de_byte, configurar_sistema, decidir, deve_mostrar_status,
    pede_quantum, Acao, Comando, QUANTUM_SEM_PREEMPCAO,
};
use escalonador::{AlgoritmoEscalonamento, ErroConfiguracao, Recurso};

#[test]
fn teclas_e_comandos() {
    assert_eq!(comando_de_byte(b'q'), Some(Comando::Sair));
    assert_eq!(comando_de_byte(b'Q'), Some(Comando::Sair));
    assert_eq!(comando_de_byte(b's'), Some(Comando::Estatisticas));
    assert_eq!(comando_de_byte(b'S'), Some(Comando::Estatisticas));
    assert_eq!(comando_de_byte(b'p'), Some(Comando::Pausa));
    assert_eq!(comando_de_byte(b'P'), Some(Comando::Pausa));
    assert_eq!(comando_de_byte(b'a'), Some(Comando::Adicionar));
    assert_eq!(comando_de_byte(b'A'), Some(Comando::Adicionar));
    assert_eq!(comando_de_byte(b'\n'), Some(Comando::Continuar));
    assert_eq!(comando_de_byte(b'x'), None);
    assert_eq!(comando_de_byte(b' '), None);
    assert_eq!(comando_de_byte(0), None);
    assert_eq!(comando_de_byte(255), None);
}

#[test]
fn opcoes_de_algoritmo() {
    assert_eq!(algoritmo_da_opcao(1), Some(AlgoritmoEscalonamento::RoundRobin));
    assert_eq!(algoritmo_da_opcao(2), Some(AlgoritmoEscalonamento::Prioridade));
    assert_eq!(algoritmo_da_opcao(3), Some(AlgoritmoEscalonamento::ShortestJobFirst));
    assert_eq!(algoritmo_da_opcao(0), None);
    assert_eq!(algoritmo_da_opcao(4), None);
}

#[test]
fn quantum_so_se_pede_em_round_robin() {
    assert!(pede_quantum(AlgoritmoEscalonamento::RoundRobin));
    assert!(!pede_quantum(AlgoritmoEscalonamento::Prioridade));
    assert!(!pede_quantum(AlgoritmoEscalonamento::ShortestJobFirst));
    assert_eq!(QUANTUM_SEM_PREEMPCAO, 1);
}

#[test]
fn decisoes_da_sessao() {
    for vencido in [false, true] {
        for pausado in [false, true] {
            assert_eq!(decidir(pausado, Some(Comando::Sair), vencido), (pausado, Acao::Encerrar));
            assert_eq!(
                decidir(pausado, Some(Comando::Estatisticas), vencido),
                (pausado, Acao::MostrarEstatisticas)
            );
            assert_eq!(
                decidir(pausado, Some(Comando::Pausa), vencido),
                (!pausado, Acao::AnunciarPausa { pausado: !pausado })
            );
            assert_eq!(
                decidir(pausado, Some(Comando::Adicionar), vencido),
                (pausado, Acao::AdicionarManual)
            );
        }
        assert_eq!(decidir(true, None, vencido), (true, Acao::Aguardar));
        assert_eq!(decidir(true, Some(Comando::Continuar), vencido), (true, Acao::Aguardar));
        assert_eq!(decidir(false, None, vencido), (false, Acao::Avancar { gerar: vencido }));
        assert_eq!(
            decidir(false, Some(Comando::Continuar), vencido),
            (false, Acao::Avancar { gerar: vencido })
        );
    }
}

#[test]
fn status_a_cada_dez_passos() {
    assert!(deve_mostrar_status(0));
    assert!(deve_mostrar_status(10));
    assert!(deve_mostrar_status(4_000_000_000));
    assert!(!deve_mostrar_status(1));
    assert!(!deve_mostrar_status(19));
    assert!(!deve_mostrar_status(u32::MAX));
}

#[test]
fn configurar_sistema_guarda_a_taxa() {
    let s = configurar_sistema(4, AlgoritmoEscalonamento::RoundRobin, 3, 55).unwrap();
    assert_eq!(s.nucleos.len(), 4);
    assert_eq!(s.quantum, 3);
    assert_eq!(s.taxa_chegada_processos, 55);
    assert_eq!(s.tempo_global, 0);
    assert_eq!(s.recursos_disponiveis.get(&Recurso::Memoria(1024)), Some(&8));
    assert_eq!(
        configurar_sistema(0, AlgoritmoEscalonamento::RoundRobin, 3, 55).err(),
        Some(ErroConfiguracao::SemNucleos)
    );
    assert_eq!(
        configurar_sistema(1, AlgoritmoEscalonamento::RoundRobin, 0, 55).err(),
        Some(ErroConfiguracao::QuantumInvalido)
    );
}

#[test]
fn entrada_vazia_vale_o_padrao() {
    assert_eq!(validar_entrada(true, None, 1, 16, 4), Some(4));
    assert_eq!(validar_entrada(true, Some(9), 1, 16, 4), Some(4));
    assert_eq!(validar_entrada(true, None, 5, 6, 99), Some(99));
    assert_eq!(interpretar_entrada("", 1, 16, 4), Some(4));
    assert_eq!(interpretar_entrada("  \n", 1, 16, 4), Some(4));
    assert_eq!(interpretar_entrada("\t\r\n", 0, 4, 1), Some(1));
}

#[test]
fn entrada_dentro_dos_limites() {
    assert_eq!(validar_entrada(false, Some(1), 1, 16, 4), Some(1));
    assert_eq!(validar_entrada(false, Some(16), 1, 16, 4), Some(16));
    assert_eq!(interpretar_entrada("7\n", 1, 16, 4), Some(7));
    assert_eq!(interpretar_entrada("  16 ", 1, 16, 4), Some(16));
    assert_eq!(interpretar_entrada("0", 0, 4, 1), Some(0));
    assert_eq!(interpretar_entrada("+3", 1, 16, 4), Some(3));
    assert_eq!(interpretar_entrada("007", 1, 16, 4), Some(7));
}

#[test]
fn entrada_fora_dos_limites_ou_ilegivel() {
    assert_eq!(validar_entrada(false, Some(0), 1, 16, 4), None);
    assert_eq!(validar_entrada(false, Some(17), 1, 16, 4), None);
    assert_eq!(validar_entrada(false, Some(u64::MAX), 1, usize::MAX, 4), if usize::BITS == 64 {
        Some(usize::MAX)
    } else {
        None
    });
    assert_eq!(validar_entrada(false, None, 1, 16, 4), None);
    assert_eq!(interpretar_entrada("17", 1, 16, 4), None);
    assert_eq!(interpretar_entrada("0", 1, 16, 4), None);
    assert_eq!(interpretar_entrada("-3", 1, 16, 4), None);
    assert_eq!(interpretar_entrada("sete", 1, 16, 4), None);
    assert_eq!(interpretar_entrada("7 8", 1, 16, 4), None);
    assert_eq!(interpretar_entrada("99999999999999999999999", 1, 16, 4), None);
}

#[test]
fn numeros_escritos_em_decimal() {
    assert_eq!(analisar("0"), Some(0));
    assert_eq!(analisar("42"), Some(42));
    assert_eq!(analisar("+42"), Some(42));
    assert_eq!(analisar("00042"), Some(42));
    assert_eq!(analisar("18446744073709551615"), Some(u64::MAX));
    assert_eq!(analisar("18446744073709551616"), None);
    assert_eq!(analisar("99999999999999999999"), None);
    assert_eq!(analisar(""), None);
    assert_eq!(analisar("+"), None);
    assert_eq!(analisar("-"), None);
    assert_eq!(analisar("-1"), None);
    assert_eq!(analisar("++1"), None);
    assert_eq!(analisar("1+"), None);
    assert_eq!(analisar(" 1"), None);
    assert_eq!(analisar("1 "), None);
    assert_eq!(analisar("1_000"), None);
    assert_eq!(analisar("12a"), None);
    assert_eq!(analisar("\u{ff11}\u{ff12}"), None);
    assert_eq!(analisar("\u{661}"), None);
}

#[test]
fn numeros_lidos_como_a_biblioteca_padrao_le() {
    let textos = [
        "", "0", "7", "+7", "-7", "+", "-", "+-7", "007", "+007", "7+", "7.0", "7e1", "0x10", " 7",
        "7 ", "7\n", "18446744073709551615", "18446744073709551616", "+18446744073709551615",
        "184467440737095516150", "000000000000000000000000000001", "\u{ff17}", "7\u{301}", "٧",
        "1_0", "١٢٣", "4294967295", "4294967296",
    ];
    for texto in textos {
        assert_eq!(analisar(texto), texto.parse::<u64>().ok(), "{:?}", texto);
    }
}
