use cbrec::calidades::listar_calidades;
use cbrec::manifest::parsear_variantes;
use cbrec::manifest::VarianteStream;
use cbrec::select::resolver_variant_url;
use cbrec::select::seleccionar_variante;
use cbrec::stream_url::StreamUrl;

fn variante(url: &str, bandwidth: Option<u64>, height: Option<u32>) -> VarianteStream {
    VarianteStream {
        url: url.to_string(),
        bandwidth,
        height,
    }
}

#[test]
fn parsea_variantes_y_selecciona() {
    let playlist = "\
#EXTM3U
#EXT-X-STREAM-INF:BANDWIDTH=800000,RESOLUTION=640x360
low.m3u8
#EXT-X-STREAM-INF:BANDWIDTH=1400000,RESOLUTION=1280x720
mid.m3u8
#EXT-X-STREAM-INF:BANDWIDTH=2800000,RESOLUTION=1920x1080
hi.m3u8
";

    let variantes = parsear_variantes(playlist.as_bytes()).expect("parse failed");
    assert_eq!(variantes.len(), 3);

    let sel_720 = seleccionar_variante(&variantes, "720p").unwrap();
    assert_eq!(sel_720.url, "mid.m3u8");

    let sel_best = seleccionar_variante(&variantes, "best").unwrap();
    assert_eq!(sel_best.url, "hi.m3u8");
}

#[test]
fn parsea_atributos_y_lineas_ajenas() {
    let playlist = "#EXTM3U\r\n\
# comentario\r\n\
\r\n\
#EXT-X-STREAM-INF:BANDWIDTH=500000,CODECS=\"avc1,mp4a\",RESOLUTION=842x480\r\n\
media.m3u8\r\n";
    let variantes = parsear_variantes(playlist.as_bytes()).unwrap();
    assert_eq!(variantes.len(), 1);
    assert_eq!(variantes[0].url, "media.m3u8");
    assert_eq!(variantes[0].bandwidth, Some(500000));
    assert_eq!(variantes[0].height, Some(480));
}

#[test]
fn valores_entre_comillas_no_se_parten() {
    let playlist =
        "#EXT-X-STREAM-INF:BANDWIDTH=1000,CODECS=\"a,RESOLUTION=9x9\",RESOLUTION=640x360\nuno.m3u8\n";
    let variantes = parsear_variantes(playlist.as_bytes()).unwrap();
    assert_eq!(variantes.len(), 1);
    assert_eq!(variantes[0].bandwidth, Some(1000));
    assert_eq!(variantes[0].height, Some(360));
}

#[test]
fn etiqueta_sin_banda_es_invalida() {
    let playlist = "#EXT-X-STREAM-INF:RESOLUTION=640x360\nuno.m3u8\n";
    assert!(parsear_variantes(playlist.as_bytes()).is_err());
}

#[test]
fn banda_no_numerica_es_invalida() {
    let playlist = "#EXT-X-STREAM-INF:BANDWIDTH=abc\nuno.m3u8\n";
    assert!(parsear_variantes(playlist.as_bytes()).is_err());
}

#[test]
fn resolucion_mal_formada_es_invalida() {
    let playlist = "#EXT-X-STREAM-INF:BANDWIDTH=1000,RESOLUTION=640\nuno.m3u8\n";
    assert!(parsear_variantes(playlist.as_bytes()).is_err());
}

#[test]
fn altura_fuera_de_rango_queda_desconocida() {
    let playlist = "#EXT-X-STREAM-INF:BANDWIDTH=1000,RESOLUTION=1x5000000000\nuno.m3u8\n";
    let variantes = parsear_variantes(playlist.as_bytes()).unwrap();
    assert_eq!(variantes.len(), 1);
    assert_eq!(variantes[0].height, None);
    assert_eq!(variantes[0].bandwidth, Some(1000));
}

#[test]
fn banda_en_el_limite_de_64_bits() {
    let justo = "#EXT-X-STREAM-INF:BANDWIDTH=18446744073709551615\nuno.m3u8\n";
    let variantes = parsear_variantes(justo.as_bytes()).unwrap();
    assert_eq!(variantes[0].bandwidth, Some(u64::MAX));

    let pasado = "#EXT-X-STREAM-INF:BANDWIDTH=18446744073709551616\nuno.m3u8\n";
    assert!(parsear_variantes(pasado.as_bytes()).is_err());
}

#[test]
fn uri_no_utf8_es_invalida() {
    let mut bytes = b"#EXT-X-STREAM-INF:BANDWIDTH=1000\n".to_vec();
    bytes.extend_from_slice(&[0xFF, 0xFE, b'\n']);
    assert!(parsear_variantes(&bytes).is_err());
}

#[test]
fn etiqueta_sin_uri_no_emite_variante() {
    let playlist = "#EXT-X-STREAM-INF:BANDWIDTH=1000,RESOLUTION=640x360\n#EXTM3U\n";
    let variantes = parsear_variantes(playlist.as_bytes()).unwrap();
    assert_eq!(variantes.len(), 0);
}

#[test]
fn seleccion_1080p_solo_arriba_va_a_la_mas_cercana() {
    let variantes = vec![
        variante("a.m3u8", Some(1400), Some(720)),
        variante("b.m3u8", Some(5000), Some(1440)),
    ];
    let sel = seleccionar_variante(&variantes, "1080p").unwrap();
    assert_eq!(sel.url, "a.m3u8");

    let solo_altas = vec![
        variante("c.m3u8", Some(5000), Some(1440)),
        variante("d.m3u8", Some(9000), Some(2160)),
    ];
    let sel = seleccionar_variante(&solo_altas, "1080p").unwrap();
    assert_eq!(sel.url, "c.m3u8");
}

#[test]
fn seleccion_240p_sin_menores_va_a_la_mas_cercana_arriba() {
    let variantes = vec![
        variante("hi.m3u8", Some(2800), Some(1080)),
        variante("mid.m3u8", Some(1400), Some(720)),
    ];
    let sel = seleccionar_variante(&variantes, "240p").unwrap();
    assert_eq!(sel.url, "mid.m3u8");
}

#[test]
fn calidad_desconocida_actua_como_best() {
    let variantes = vec![
        variante("low.m3u8", Some(800), Some(360)),
        variante("hi.m3u8", Some(2800), Some(1080)),
    ];
    let sel = seleccionar_variante(&variantes, "mediana").unwrap();
    assert_eq!(sel.url, "hi.m3u8");
}

#[test]
fn sin_alturas_gana_la_mayor_banda() {
    let variantes = vec![
        variante("a.m3u8", Some(100), None),
        variante("b.m3u8", Some(900), None),
        variante("c.m3u8", None, None),
    ];
    let sel = seleccionar_variante(&variantes, "best").unwrap();
    assert_eq!(sel.url, "b.m3u8");
}

#[test]
fn sin_variantes_no_hay_seleccion() {
    let variantes: Vec<VarianteStream> = Vec::new();
    assert!(seleccionar_variante(&variantes, "best").is_none());
}

#[test]
fn resuelve_variante_relativa_contra_el_master() {
    let master = StreamUrl::new("https://example.com/live/master.m3u8").unwrap();
    let variantes = vec![
        variante("low.m3u8", Some(800), Some(360)),
        variante("mid.m3u8", Some(1400), Some(720)),
    ];
    let resuelta = resolver_variant_url(&master, &variantes, "720p").unwrap();
    assert_eq!(resuelta.as_str(), "https://example.com/live/mid.m3u8");
}

#[test]
fn sin_variantes_se_conserva_el_master() {
    let master = StreamUrl::new("https://example.com/live/master.m3u8").unwrap();
    let variantes: Vec<VarianteStream> = Vec::new();
    let resuelta = resolver_variant_url(&master, &variantes, "best").unwrap();
    assert_eq!(resuelta.as_str(), "https://example.com/live/master.m3u8");
}

#[test]
fn lista_calidades_ordenadas() {
    let variantes = vec![
        variante("hi.m3u8", Some(2800), Some(1080)),
        variante("low.m3u8", Some(800), Some(360)),
        variante("mid.m3u8", Some(1400), Some(720)),
        variante("extra.m3u8", Some(600), Some(360)),
    ];
    let calidades = listar_calidades(&variantes);
    let pares: Vec<(Option<u32>, Option<u64>)> = calidades
        .iter()
        .map(|c| (c.height, c.bandwidth))
        .collect();
    assert_eq!(
        pares,
        vec![
            (Some(360), Some(600)),
            (Some(360), Some(800)),
            (Some(720), Some(1400)),
            (Some(1080), Some(2800)),
        ]
    );
}
