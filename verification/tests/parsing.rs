use solar_metrics::fetch::FetchOutcome;
use solar_metrics::number::parse_milli;
use solar_metrics::parse;
use solar_metrics::reading::{read_values, Field, ParseError, Reading};
use solar_metrics::render::{render_metrics, respond};
use solar_metrics::scan::scan;

fn page(generation: &str, consumption: &str) -> String {
    format!(
        "<!-- ここから発電量表示 -->{}<!-- ここまで発電量表示 -->\n<!-- ここから消費量表示 -->{}<!-- ここまで消費量表示 -->",
        generation, consumption
    )
}

#[test]
fn scan_finds_both_fields() {
    let body = page("1.5", "2");
    let (g, c) = scan(&body).unwrap();
    assert_eq!(g, "1.5");
    assert_eq!(c, "2");
}

#[test]
fn scan_accepts_prefix_before_marker() {
    let body = format!("  junk {}", page("1.5", "0.8"));
    let (g, c) = scan(&body).unwrap();
    assert_eq!(g, "1.5");
    assert_eq!(c, "0.8");
}

#[test]
fn scan_skips_line_with_start_but_no_end() {
    let body = format!(
        "<!-- ここから発電量表示 -->lost\n{}",
        page("2.25", "0.5")
    );
    let (g, c) = scan(&body).unwrap();
    assert_eq!(g, "2.25");
    assert_eq!(c, "0.5");
}

#[test]
fn scan_requires_markers_on_same_line() {
    // The end marker only appears on a later line: the field is absent.
    let body = "<!-- ここから発電量表示 -->1.5\n<!-- ここまで発電量表示 -->\n<!-- ここから消費量表示 -->0.8<!-- ここまで消費量表示 -->";
    assert!(scan(body).is_none());
    assert_eq!(
        read_values(body),
        Err(ParseError::FieldMissing(Field::Generation))
    );
}

#[test]
fn missing_generation_field() {
    let body = "<!-- ここから消費量表示 -->0.8<!-- ここまで消費量表示 -->";
    assert!(scan(body).is_none());
    assert_eq!(
        read_values(body),
        Err(ParseError::FieldMissing(Field::Generation))
    );
    assert_eq!(parse(body.to_string()), None);
}

#[test]
fn missing_consumption_field() {
    let body = "<!-- ここから発電量表示 -->1.5<!-- ここまで発電量表示 -->";
    assert_eq!(
        read_values(body),
        Err(ParseError::FieldMissing(Field::Consumption))
    );
}

#[test]
fn empty_body_misses_everything() {
    assert_eq!(
        read_values(""),
        Err(ParseError::FieldMissing(Field::Generation))
    );
    assert_eq!(parse(String::new()), None);
}

#[test]
fn unparseable_generation() {
    let body = page("abc", "0.8");
    assert_eq!(
        read_values(&body),
        Err(ParseError::NumberUnparseable(Field::Generation))
    );
    assert_eq!(parse(body), None);
}

#[test]
fn unparseable_consumption() {
    let body = page("1.5", "");
    assert_eq!(
        read_values(&body),
        Err(ParseError::NumberUnparseable(Field::Consumption))
    );
}

#[test]
fn read_values_success() {
    let body = page("1.5", "0.8");
    assert_eq!(
        read_values(&body),
        Ok(Reading { generation: 1500, consumption: 800 })
    );
    assert_eq!(parse(body), Some((1500, 800)));
}

#[test]
fn milli_plain_values() {
    assert_eq!(parse_milli("1.500"), Some(1500));
    assert_eq!(parse_milli("0.800"), Some(800));
    assert_eq!(parse_milli("2"), Some(2000));
    assert_eq!(parse_milli("+2"), Some(2000));
    assert_eq!(parse_milli("-3.25"), Some(-3250));
    assert_eq!(parse_milli("7."), Some(7000));
    assert_eq!(parse_milli(".25"), Some(250));
    assert_eq!(parse_milli("0"), Some(0));
}

#[test]
fn milli_rounds_half_away_from_zero() {
    // 1.2345 * 1000 = 1234.5: the tie moves the magnitude up.
    assert_eq!(parse_milli("1.2345"), Some(1235));
    // -0.0005 * 1000 = -0.5: away from zero means -1.
    assert_eq!(parse_milli("-0.0005"), Some(-1));
    assert_eq!(parse_milli("1.2344999"), Some(1234));
    assert_eq!(parse_milli("1.2346"), Some(1235));
    assert_eq!(parse_milli("0.0004999"), Some(0));
}

#[test]
fn milli_rejects_bad_fragments() {
    assert_eq!(parse_milli(""), None);
    assert_eq!(parse_milli("-"), None);
    assert_eq!(parse_milli("+"), None);
    assert_eq!(parse_milli("."), None);
    assert_eq!(parse_milli("-."), None);
    assert_eq!(parse_milli("1e3"), None);
    assert_eq!(parse_milli("1.2.3"), None);
    assert_eq!(parse_milli(" 1"), None);
    assert_eq!(parse_milli("1 "), None);
    assert_eq!(parse_milli("--1"), None);
}

#[test]
fn milli_range_boundary() {
    assert_eq!(parse_milli("9223372036854775.807"), Some(i64::MAX));
    assert_eq!(parse_milli("9223372036854775.808"), None);
    assert_eq!(parse_milli("-9223372036854775.807"), Some(-i64::MAX));
    assert_eq!(parse_milli("99999999999999999999"), None);
}

#[test]
fn render_exact_body() {
    let r = Reading { generation: 1500, consumption: 800 };
    let s = render_metrics(&r);
    let expected = "# HELP power_solar_generation_watts An amount of solar power generation in watts\n\
                    # TYPE power_solar_generation_watts gauge\n\
                    power_solar_generation_watts 1500\n\
                    # HELP power_consumption_watts An amount of power consumption in watts\n\
                    # TYPE power_consumption_watts gauge\n\
                    power_consumption_watts 800";
    assert_eq!(s, expected);
}

#[test]
fn render_negative_value() {
    let r = Reading { generation: -5, consumption: 0 };
    let s = render_metrics(&r);
    assert!(s.contains("power_solar_generation_watts -5"));
    assert!(s.contains("power_consumption_watts 0"));
}

#[test]
fn end_to_end_exposition() {
    let body = page("1.500", "0.800");
    let (g, c) = parse(body).unwrap();
    assert_eq!((g, c), (1500, 800));
    let s = render_metrics(&Reading { generation: g, consumption: c });
    assert!(s.contains("power_solar_generation_watts 1500"));
    assert!(s.contains("power_consumption_watts 800"));
}

#[test]
fn respond_messages() {
    let ok = respond(&FetchOutcome::Success(Reading { generation: 1, consumption: 2 }));
    assert!(ok.0);
    assert!(ok.1.contains("power_solar_generation_watts 1"));
    let failed = respond(&FetchOutcome::FetchFailed("timed out".to_string()));
    assert_eq!(failed, (false, "failed to fetch metrics".to_string()));
    let exhausted = respond(&FetchOutcome::ParseExhausted);
    assert_eq!(exhausted, (false, "failed to parse metrics".to_string()));
}
