use cbrec::errors::DomainError;
use cbrec::model_name::ModelName;
use cbrec::stream_url::StreamUrl;

#[test]
fn test_model_name_valid() {
    let result = ModelName::new("validmodel");
    assert!(result.is_ok());
    assert_eq!(result.unwrap().as_str(), "validmodel");
}

#[test]
fn test_model_name_with_underscore() {
    let result = ModelName::new("model_name_123");
    assert!(result.is_ok());
}

#[test]
fn test_model_name_uppercase_converts_to_lowercase() {
    let result = ModelName::new("ModelName");
    assert!(result.is_ok());
    assert_eq!(result.unwrap().as_str(), "modelname");
}

#[test]
fn test_model_name_empty_fails() {
    let result = ModelName::new("");
    assert!(result.is_err());
    assert!(matches!(
        result.unwrap_err(),
        DomainError::InvalidModelName(_)
    ));
}

#[test]
fn test_model_name_too_long_fails() {
    let long_name = "a".repeat(101);
    let result = ModelName::new(&long_name);
    assert!(result.is_err());
}

#[test]
fn test_model_name_invalid_characters_fails() {
    let invalid_names = vec!["model@name", "model name", "model.name"];

    for name in invalid_names {
        let result = ModelName::new(name);
        assert!(result.is_err(), "Expected {} to fail", name);
    }
}

#[test]
fn test_stream_url_valid_https() {
    let result = StreamUrl::new("https://example.com/stream.m3u8");
    assert!(result.is_ok());
}

#[test]
fn test_stream_url_valid_http() {
    let result = StreamUrl::new("http://example.com/stream");
    assert!(result.is_ok());
}

#[test]
fn test_stream_url_empty_fails() {
    let result = StreamUrl::new("");
    assert!(result.is_err());
    assert!(matches!(
        result.unwrap_err(),
        DomainError::InvalidStreamUrl(_)
    ));
}

#[test]
fn test_stream_url_no_protocol_fails() {
    let result = StreamUrl::new("example.com/stream");
    assert!(result.is_err());
}

#[test]
fn test_stream_url_invalid_protocol_fails() {
    let result = StreamUrl::new("ftp://example.com/stream");
    assert!(result.is_err());
}

#[test]
fn test_stream_url_try_from() {
    let result = StreamUrl::new("https://test.com/video.m3u8");
    assert!(result.is_ok());
}

#[test]
fn normaliza_recortando_y_bajando_caso() {
    let m = ModelName::new("  AlIcE_99  ").unwrap();
    assert_eq!(m.as_str(), "alice_99");
}

#[test]
fn normalizar_es_idempotente() {
    let una_vez = ModelName::new("  AlIcE  ").unwrap();
    let dos_veces = ModelName::new(una_vez.as_str()).unwrap();
    assert_eq!(una_vez.as_str(), dos_veces.as_str());
}

#[test]
fn variantes_de_caso_y_espacios_normalizan_igual() {
    let a = ModelName::new("alice").unwrap();
    let b = ModelName::new("ALICE").unwrap();
    let c = ModelName::new("\t aLiCe \n").unwrap();
    assert_eq!(a.as_str(), b.as_str());
    assert_eq!(a.as_str(), c.as_str());
}

#[test]
fn acepta_alfanumericos_unicode() {
    let m = ModelName::new("Ni\u{00d1}a").unwrap();
    assert_eq!(m.as_str(), "ni\u{00f1}a");
}

#[test]
fn recorta_blancos_unicode() {
    let m = ModelName::new("\u{00a0}abc\u{2028}").unwrap();
    assert_eq!(m.as_str(), "abc");
}

#[test]
fn url_se_recorta() {
    let u = StreamUrl::new("  https://example.com/a.m3u8  ").unwrap();
    assert_eq!(u.as_str(), "https://example.com/a.m3u8");
}

#[test]
fn url_se_recorta_con_blancos_unicode() {
    let u = StreamUrl::new("\u{00a0}https://example.com/a.m3u8\u{2028}").unwrap();
    assert_eq!(u.as_str(), "https://example.com/a.m3u8");
}
