use cbrec::politica::interpretar_fuente;
use cbrec::politica::DecisionRespuesta;
use cbrec::politica::PoliticaReintentos;

#[test]
fn reintenta_dos_veces_y_luego_acierta() {
    let politica = PoliticaReintentos::nueva();
    let mut estado = politica.inicial();
    let mut esperas: Vec<u64> = Vec::new();
    let mut peticiones = 0usize;
    let mut exito = false;
    for status in [503u16, 503, 200] {
        peticiones += 1;
        let (decision, siguiente) = politica.decidir(estado, status, true);
        estado = siguiente;
        match decision {
            DecisionRespuesta::Reintentar { espera_ms } => esperas.push(espera_ms),
            DecisionRespuesta::Exito => {
                exito = true;
                break;
            }
            otra => panic!("decision inesperada: {:?}", otra),
        }
    }
    assert!(exito);
    assert_eq!(peticiones, 3);
    assert_eq!(esperas, vec![200, 400]);
}

#[test]
fn agota_reintentos_sin_quinta_peticion() {
    let politica = PoliticaReintentos::nueva();
    let mut estado = politica.inicial();
    let mut peticiones = 0usize;
    let mut esperas: Vec<u64> = Vec::new();
    loop {
        peticiones += 1;
        let (decision, siguiente) = politica.decidir(estado, 503, true);
        estado = siguiente;
        match decision {
            DecisionRespuesta::Reintentar { espera_ms } => esperas.push(espera_ms),
            DecisionRespuesta::FalloTransitorio => break,
            otra => panic!("decision inesperada: {:?}", otra),
        }
    }
    assert_eq!(peticiones, 4);
    assert_eq!(esperas, vec![200, 400, 800]);
}

#[test]
fn cuatrocientos_cuatro_es_no_encontrado_solo_donde_se_distingue() {
    let politica = PoliticaReintentos::nueva();
    let (d1, _) = politica.decidir(politica.inicial(), 404, true);
    assert_eq!(d1, DecisionRespuesta::NoEncontrado);
    let (d2, _) = politica.decidir(politica.inicial(), 404, false);
    assert_eq!(d2, DecisionRespuesta::FalloTerminal);
}

#[test]
fn otros_estados_son_terminales_sin_reintento() {
    let politica = PoliticaReintentos::nueva();
    let (d, estado) = politica.decidir(politica.inicial(), 403, true);
    assert_eq!(d, DecisionRespuesta::FalloTerminal);
    assert_eq!(estado.intento, 0);
}

#[test]
fn cuatrocientos_veintinueve_tambien_se_reintenta() {
    let politica = PoliticaReintentos::nueva();
    let (d, _) = politica.decidir(politica.inicial(), 429, true);
    assert!(matches!(d, DecisionRespuesta::Reintentar { espera_ms: 200 }));
}

#[test]
fn fuente_ausente_es_offline_no_error() {
    let r = interpretar_fuente(None).unwrap();
    assert!(r.is_none());
}

#[test]
fn fuente_presente_se_valida() {
    let r = interpretar_fuente(Some("https://edge.example.com/live.m3u8".to_string()))
        .unwrap()
        .unwrap();
    assert_eq!(r.as_str(), "https://edge.example.com/live.m3u8");
    assert!(interpretar_fuente(Some("sin-esquema".to_string())).is_err());
}
