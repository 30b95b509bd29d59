//! Control lines.
use arca::ui::input::{parse_line, Event, Phase, Touch};

#[test]
fn touch_completo() {
    let ev = parse_line(r#"{"event":"touch","phase":"down","x":123,"y":456,"t":139333571}"#);
    assert_eq!(
        ev,
        Some(Event::Touch(Touch {
            phase: Phase::Down,
            x: 123,
            y: 456,
            t: Some(139_333_571),
        }))
    );
}

#[test]
fn touch_sin_t_sigue_valido() {
    let ev = parse_line(r#"{"event":"touch","phase":"move","x":5,"y":6}"#);
    assert_eq!(
        ev,
        Some(Event::Touch(Touch {
            phase: Phase::Move,
            x: 5,
            y: 6,
            t: None,
        }))
    );
}

#[test]
fn ping_y_shutdown() {
    assert_eq!(parse_line(r#"{"event":"ping"}"#), Some(Event::Ping));
    assert_eq!(
        parse_line(r#"  {"event":"shutdown"}  "#),
        Some(Event::Shutdown)
    );
}

#[test]
fn fase_desconocida_descarta() {
    assert_eq!(
        parse_line(r#"{"event":"touch","phase":"cancel","x":1,"y":2}"#),
        None
    );
}

#[test]
fn coordenadas_rotas_descartan() {
    assert_eq!(
        parse_line(r#"{"event":"touch","phase":"up","x":abc,"y":2}"#),
        None
    );
    assert_eq!(parse_line(r#"{"event":"touch","phase":"up","y":2}"#), None);
}

#[test]
fn no_confunde_claves_parecidas() {
    // "x" como sufijo de otra clave ("max") NO debe matchear
    assert_eq!(
        parse_line(r#"{"event":"touch","phase":"down","max":9,"x":1,"y":2}"#),
        Some(Event::Touch(Touch {
            phase: Phase::Down,
            x: 1,
            y: 2,
            t: None,
        }))
    );
}

#[test]
fn basura_y_eventos_de_salida_descartan() {
    assert_eq!(parse_line(""), None);
    assert_eq!(parse_line("hola"), None);
    // líneas del HIJO (no del host) no son eventos de input:
    assert_eq!(parse_line(r#"{"event":"frame","seq":3}"#), None);
    assert_eq!(parse_line(r#"{"event":"pong","seq":3}"#), None);
}

#[test]
fn damaged_numbers_are_no_event() {
    let line = |x: &str, y: &str| {
        parse_line(&format!(
            r#"{{"event":"touch","phase":"up","x":{x},"y":{y}}}"#
        ))
    };
    assert_eq!(line("12abc", "2"), None);
    assert_eq!(line("12", "2.5"), None);
    assert_eq!(line("12 3", "2"), None);
    assert_eq!(line("-1", "2"), None);
    // A line that was cut off.
    assert_eq!(parse_line(r#"{"event":"touch","phase":"up","x":12,"y":2"#), None);
    let spaced = parse_line(r#"{"event":"touch","phase":"up","x": 12 ,"y":2 }"#);
    let touch = Touch {
        phase: Phase::Up,
        x: 12,
        y: 2,
        t: None,
    };
    assert_eq!(spaced, Some(Event::Touch(touch)));
    let odd_time = parse_line(r#"{"event":"touch","phase":"up","x":12,"y":2,"t":9z}"#);
    assert_eq!(odd_time, Some(Event::Touch(touch)));
    assert_eq!(line("12", "2"), Some(Event::Touch(touch)));
}

#[test]
fn coordinates_that_do_not_fit_are_no_event() {
    let line = |x: &str| {
        parse_line(&format!(
            "\t{{\"event\":\"touch\",\"phase\":\"down\",\"x\":{x},\"y\":0}}\n"
        ))
    };
    assert_eq!(
        line("4294967295"),
        Some(Event::Touch(Touch {
            phase: Phase::Down,
            x: u32::MAX,
            y: 0,
            t: None,
        }))
    );
    assert_eq!(line("4294967296"), None);
    assert_eq!(line("18446744073709551616"), None);
}
