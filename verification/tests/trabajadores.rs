use cbrec::dedup::deduplicar_modelos;
use cbrec::errors::InfrastructureError;
use cbrec::grabacion::decidir_lanzamiento;
use cbrec::grabacion::evaluar_tamano;
use cbrec::grabacion::resultado_grabacion;
use cbrec::grabacion::AccionLanzamiento;
use cbrec::grabacion::EventoGrabacion;
use cbrec::grabacion::VeredictoTamano;
use cbrec::pool::agregar_resultados;
use cbrec::pool::capacidad_cola;
use cbrec::pool::decidir_paso;
use cbrec::pool::estado_es_fallo;
use cbrec::pool::tras_grabacion;
use cbrec::pool::EstadoFinal;
use cbrec::pool::PasoTrabajador;
use cbrec::pool::ResultadoTarea;
use cbrec::pool::TrasGrabacion;

#[test]
fn deduplica_con_blancos_unicode() {
    let entrada = vec!["abc".to_string(), "abc\u{00a0}".to_string()];
    let (unicos, duplicados) = deduplicar_modelos(entrada);
    assert_eq!(unicos, vec!["abc".to_string()]);
    assert_eq!(duplicados, 1);
}

#[test]
fn deduplica_ignorando_caso_y_espacios() {
    let entrada = vec![
        "Alice".to_string(),
        "alice ".to_string(),
        " BOB".to_string(),
        "bob".to_string(),
    ];
    let (unicos, duplicados) = deduplicar_modelos(entrada);
    assert_eq!(unicos, vec!["Alice".to_string(), " BOB".to_string()]);
    assert_eq!(duplicados, 2);
}

#[test]
fn las_vacias_nunca_se_deduplican() {
    let entrada = vec!["".to_string(), "".to_string(), "x".to_string()];
    let (unicos, duplicados) = deduplicar_modelos(entrada);
    assert_eq!(unicos.len(), 3);
    assert_eq!(duplicados, 0);
}

#[test]
fn cancelacion_antes_de_tomar_trabajo_termina_sin_fallo() {
    assert_eq!(decidir_paso(true, true, false), PasoTrabajador::Terminar);
    assert_eq!(decidir_paso(false, false, false), PasoTrabajador::Terminar);
    assert_eq!(
        decidir_paso(false, true, true),
        PasoTrabajador::AbandonarTrabajo
    );
    assert_eq!(
        decidir_paso(false, true, false),
        PasoTrabajador::ProcesarTrabajo
    );
}

#[test]
fn cancelacion_durante_grabacion_no_es_fallo() {
    let resultado = resultado_grabacion(&EventoGrabacion::Cancelado);
    let err = resultado.unwrap_err();
    assert!(matches!(err, InfrastructureError::RecordingCancelled));
    assert!(!err.es_fallo());
    assert_eq!(
        tras_grabacion(&Err(InfrastructureError::RecordingCancelled)),
        TrasGrabacion::TerminarCancelado
    );
    assert!(!estado_es_fallo(&EstadoFinal::Cancelado));
}

#[test]
fn cancelacion_previa_no_lanza_proceso() {
    assert_eq!(decidir_lanzamiento(true), AccionLanzamiento::CancelarAntes);
    assert_eq!(decidir_lanzamiento(false), AccionLanzamiento::Lanzar);
}

#[test]
fn salida_con_error_si_es_fallo() {
    let resultado = resultado_grabacion(&EventoGrabacion::Salio {
        exito: false,
        codigo: Some(1),
    });
    let err = resultado.unwrap_err();
    match &err {
        InfrastructureError::RecordingError(m) => {
            assert_eq!(m, "FFmpeg exited with status: 1");
        }
        otro => panic!("error inesperado: {:?}", otro),
    }
    assert!(err.es_fallo());
    assert!(resultado_grabacion(&EventoGrabacion::Salio { exito: true, codigo: Some(0) }).is_ok());
}

#[test]
fn la_salida_fallida_nombra_el_estado() {
    let err = resultado_grabacion(&EventoGrabacion::Salio {
        exito: false,
        codigo: Some(-90),
    })
    .unwrap_err();
    match err {
        InfrastructureError::RecordingError(m) => {
            assert_eq!(m, "FFmpeg exited with status: -90");
        }
        otro => panic!("error inesperado: {:?}", otro),
    }
    let err = resultado_grabacion(&EventoGrabacion::Salio {
        exito: false,
        codigo: None,
    })
    .unwrap_err();
    match err {
        InfrastructureError::RecordingError(m) => {
            assert_eq!(m, "FFmpeg was terminated by a signal");
        }
        otro => panic!("error inesperado: {:?}", otro),
    }
}

#[test]
fn archivo_pequeno_se_borra_y_no_es_fallo() {
    assert_eq!(evaluar_tamano(1023, 1024), VeredictoTamano::BorrarPequeno);
    assert_eq!(evaluar_tamano(1024, 1024), VeredictoTamano::Conservar);
    assert!(!estado_es_fallo(&EstadoFinal::OmitidoPequeno));
}

#[test]
fn estados_omitidos_no_cuentan_como_fallo() {
    assert!(!estado_es_fallo(&EstadoFinal::Exito));
    assert!(!estado_es_fallo(&EstadoFinal::OmitidoOffline));
    assert!(estado_es_fallo(&EstadoFinal::Fallido));
}

#[test]
fn capacidad_de_cola_acotada() {
    assert_eq!(capacidad_cola(0), 1);
    assert_eq!(capacidad_cola(1), 2);
    assert_eq!(capacidad_cola(3), 6);
}

#[test]
fn agrega_fallos_y_tareas_abortadas() {
    let resultados = vec![
        ResultadoTarea::Terminada(vec!["ana".to_string()]),
        ResultadoTarea::Abortada,
        ResultadoTarea::Terminada(vec![]),
        ResultadoTarea::Terminada(vec!["eva".to_string(), "mia".to_string()]),
    ];
    let agregado = agregar_resultados(resultados);
    assert_eq!(
        agregado.fallidos,
        vec![
            "ana".to_string(),
            "tarea".to_string(),
            "eva".to_string(),
            "mia".to_string(),
        ]
    );
    assert_eq!(agregado.abortadas, 1);
}

#[test]
fn el_reparto_no_cambia_la_composicion_de_fallos() {
    let una = agregar_resultados(vec![
        ResultadoTarea::Terminada(vec!["ana".to_string(), "eva".to_string()]),
        ResultadoTarea::Terminada(vec![]),
    ]);
    let otra = agregar_resultados(vec![
        ResultadoTarea::Terminada(vec![]),
        ResultadoTarea::Terminada(vec!["eva".to_string()]),
        ResultadoTarea::Terminada(vec!["ana".to_string()]),
    ]);
    let mut fallos_una = una.fallidos.clone();
    let mut fallos_otra = otra.fallidos.clone();
    fallos_una.sort();
    fallos_otra.sort();
    assert_eq!(fallos_una, fallos_otra);
    assert_eq!(una.abortadas, otra.abortadas);
}

#[test]
fn la_agregacion_es_deterministica() {
    let hacer = || {
        vec![
            ResultadoTarea::Terminada(vec!["ana".to_string()]),
            ResultadoTarea::Abortada,
            ResultadoTarea::Terminada(vec!["eva".to_string()]),
        ]
    };
    let a = agregar_resultados(hacer());
    let b = agregar_resultados(hacer());
    assert_eq!(a.fallidos, b.fallidos);
    assert_eq!(a.abortadas, b.abortadas);
}
