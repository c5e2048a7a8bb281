use russ::opml::{get_feed_urls, Opml, Outline};
use russ::options::{parse_seconds, Command, SecondsError, ValidatedOptions};
use russ::ui::error_text;

#[test]
fn seconds_are_read_in_decimal() {
    assert_eq!(parse_seconds("4"), Ok(4));
    assert_eq!(parse_seconds("+7"), Ok(7));
    assert_eq!(parse_seconds("0250"), Ok(250));
    assert_eq!(parse_seconds("18446744073709551615"), Ok(u64::MAX));
    assert_eq!(parse_seconds(""), Err(SecondsError::Empty));
    assert_eq!(parse_seconds("+"), Err(SecondsError::InvalidDigit));
    assert_eq!(parse_seconds("-1"), Err(SecondsError::InvalidDigit));
    assert_eq!(parse_seconds("5s"), Err(SecondsError::InvalidDigit));
    assert_eq!(parse_seconds("18446744073709551616"), Err(SecondsError::PosOverflow));
}

#[test]
fn options_take_the_default_database_path_only_when_none_is_given() {
    let read = Command::Read {
        database_path: None,
        tick_rate: 250,
        flash_display_duration_seconds: 4,
        network_timeout: 5,
    };
    match read.validate("/data/feeds.db") {
        ValidatedOptions::Read(o) => {
            assert_eq!(o.database_path, "/data/feeds.db");
            assert_eq!(o.tick_rate, 250);
            assert_eq!(o.flash_display_duration_seconds, 4);
            assert_eq!(o.network_timeout, 5);
        }
        ValidatedOptions::Import(_) => panic!("expected read options"),
    }
    let import = Command::Import {
        database_path: Some("mine.db".to_string()),
        opml_path: "feeds.opml".to_string(),
        network_timeout: 9,
    };
    match import.validate("/data/feeds.db") {
        ValidatedOptions::Import(o) => {
            assert_eq!(o.database_path, "mine.db");
            assert_eq!(o.opml_path, "feeds.opml");
            assert_eq!(o.network_timeout, 9);
        }
        ValidatedOptions::Read(_) => panic!("expected import options"),
    }
}

fn outline(url: Option<&str>, outlines: Vec<Outline>) -> Outline {
    Outline { xml_url: url.map(|u| u.to_string()), outlines }
}

#[test]
fn nested_outlines_give_all_their_urls() {
    let doc = Opml {
        outlines: vec![
            outline(Some("a"), vec![]),
            outline(None, vec![outline(Some("b"), vec![]), outline(Some("c"), vec![outline(Some("d"), vec![])])]),
            outline(Some("e"), vec![outline(Some("f"), vec![])]),
        ],
    };
    assert_eq!(get_feed_urls(&doc), vec!["e", "f", "c", "d", "b", "a"]);
    assert_eq!(get_feed_urls(&Opml { outlines: vec![] }).len(), 0);
}

#[test]
fn error_text_puts_a_blank_line_after_each_error() {
    assert_eq!(error_text(&vec![]), "");
    assert_eq!(error_text(&vec!["one".to_string()]), "one\n\n");
    assert_eq!(
        error_text(&vec!["one\nmore".to_string(), "two".to_string()]),
        "one\nmore\n\n\ntwo\n\n"
    );
}
