use std::str::FromStr;

use tdtxt::date::Date;
use tdtxt::date::DateCompound;
use tdtxt::date::ParseDateCompoundError;
use tdtxt::date::ParseDateError;
use tdtxt::date::SimpleDate;
use tdtxt::description::ParseDescriptionError;
use tdtxt::priority::ParsePriorityError;
use tdtxt::state::ParseStateError;
use tdtxt::description::Component;
use tdtxt::description::Components;
use tdtxt::description::Description;
use tdtxt::parse::Cursor;
use tdtxt::parse::Parser;
use tdtxt::priority::Priority;
use tdtxt::span::BytePos;
use tdtxt::span::ByteSpan;
use tdtxt::state::State;
use tdtxt::task::ParseTaskError;
use tdtxt::task::Task;

#[test]
fn round_trip_builder() {
    let tasks = vec![
        Task::build().build("just some words"),
        Task::build().state(State::Done).build("finished +chore @home"),
        Task::build().priority(Priority::Q).build("queued up due:2031-12-31"),
        Task::build()
            .state(State::Done)
            .priority(Priority::A)
            .date_compound(DateCompound::completed(
                Date::from_ymd(2016, 4, 30),
                Date::from_ymd(2016, 5, 20),
            ))
            .build("measure space for +chapelShelving @chapel due:2016-05-30"),
        Task::build()
            .date_compound(DateCompound::created(Date::from_ymd(2011, 3, 2)))
            .build("Document +TodoTxt task format"),
    ];
    for task in tasks {
        let line = task.to_string();
        assert_eq!(Task::from_str(&line), Ok(task));
    }
}

#[test]
fn date_compound_disambiguation() {
    // two dates followed by free text parse as completion + creation
    let task = Task::from_str("2000-01-01 1970-01-01 description").unwrap();
    assert_eq!(
        task.date_compound(),
        Some(&DateCompound::Completed {
            created: Date::from_ymd(1970, 1, 1),
            completed: Date::from_ymd(2000, 1, 1),
        })
    );
    assert_eq!(task.description().description(), "description");

    // a single date stays a creation date
    let task = Task::from_str("1234-07-16 description").unwrap();
    assert_eq!(
        task.date_compound(),
        Some(&DateCompound::Created { created: Date::from_ymd(1234, 7, 16) })
    );
    assert_eq!(task.description().description(), "description");

    // a second date glued to the free text is not consumed
    let task = Task::from_str("2000-01-01 1970-01-01x tail").unwrap();
    assert_eq!(
        task.date_compound(),
        Some(&DateCompound::Created { created: Date::from_ymd(2000, 1, 1) })
    );
    assert_eq!(task.description().description(), "1970-01-01x tail");
}

#[test]
fn malformed_priority_is_text() {
    let task = Task::from_str("(1) text").unwrap();
    assert_eq!(task.priority(), None);
    assert_eq!(task.description().description(), "(1) text");
    assert!(task.description().projects().is_empty());
    assert!(task.description().contexts().is_empty());
    assert!(task.description().custom().is_empty());
}

#[test]
fn empty_input_rejected() {
    assert_eq!(Task::from_str(""), Err(ParseTaskError));

    let mut parser = Parser::new(b"");
    assert!(Description::parse(&mut parser).is_err());

    // a line that ends right after its tokens has no description either
    assert_eq!(Task::from_str("x "), Err(ParseTaskError));
}

#[test]
fn default_state_open() {
    let task = Task::from_str("Call Mom").unwrap();
    assert_eq!(task.state(), &State::Open);

    // formatting an open task emits no state token
    let task = Task::build().build("Call Mom");
    assert_eq!(task.to_string(), "Call Mom");
}

#[test]
fn custom_tag_ambiguity() {
    let description = Description::new("also:not:valid");
    assert!(description.custom().is_empty());
    assert!(description.projects().is_empty());
    assert!(description.contexts().is_empty());

    let description = Description::new("ok:valid");
    assert_eq!(description.custom(), vec![("ok".to_string(), "valid".to_string())]);
}

#[test]
fn components_cover_text() {
    let input = "Call Mom +Family +PeaceLoveAndHappiness @iphone @phone number:+1(111)111-7777";
    let description = Description::new(input);
    let mut components = Components::new(&description);

    assert_eq!(components.next(), Some(Component::Text("Call Mom ".to_string())));
    assert_eq!(components.next(), Some(Component::Project("+Family".to_string())));
    assert_eq!(components.next(), Some(Component::Text(" ".to_string())));
    assert_eq!(
        components.next(),
        Some(Component::Project("+PeaceLoveAndHappiness".to_string()))
    );
    assert_eq!(components.next(), Some(Component::Text(" ".to_string())));
    assert_eq!(components.next(), Some(Component::Context("@iphone".to_string())));
    assert_eq!(components.next(), Some(Component::Text(" ".to_string())));
    assert_eq!(components.next(), Some(Component::Context("@phone".to_string())));
    assert_eq!(components.next(), Some(Component::Text(" ".to_string())));
    assert_eq!(
        components.next(),
        Some(Component::Custom {
            key: "number".to_string(),
            separator: ":".to_string(),
            value: "+1(111)111-7777".to_string(),
        })
    );
    assert_eq!(components.next(), None);

    // concatenating all component substrings reproduces the text exactly
    let mut replay = String::new();
    for component in description.components() {
        match component {
            Component::Text(t) => replay.push_str(&t),
            Component::Project(t) => replay.push_str(&t),
            Component::Context(t) => replay.push_str(&t),
            Component::Custom { key, separator, value } => {
                replay.push_str(&key);
                replay.push_str(&separator);
                replay.push_str(&value);
            },
        }
    }
    assert_eq!(replay, input);
}

#[test]
fn calendar_dates_validated() {
    // the static bounds alone would accept these; the calendar does not
    assert!(Date::from_ymd_opt(2015, 2, 29).is_none());
    assert!(Date::from_ymd_opt(2016, 2, 29).is_some());
    assert!(Date::from_ymd_opt(1900, 2, 29).is_none());
    assert!(Date::from_ymd_opt(2000, 2, 29).is_some());
    assert!(Date::from_ymd_opt(2015, 4, 31).is_none());
    assert!(Date::from_ymd_opt(2015, 0, 1).is_none());
    assert!(Date::from_ymd_opt(2015, 13, 1).is_none());
    assert!(Date::from_ymd_opt(2015, 1, 0).is_none());
    assert!(Date::from_ymd_opt(2015, 12, 31).is_some());

    // an impossible calendar day in a line fails the date token, which is
    // then free text
    let task = Task::from_str("2015-02-29 hello").unwrap();
    assert_eq!(task.date_compound(), None);
    assert_eq!(task.description().description(), "2015-02-29 hello");
}

#[test]
fn invalid_utf8_rejected() {
    let mut parser = Parser::new(b"\xff\xfe broken");
    assert_eq!(Task::parse(&mut parser), Err(ParseTaskError));

    let mut parser = Parser::new(b"ok line\n\xff broken");
    assert!(Task::parse(&mut parser).is_ok());
    assert_eq!(Task::parse(&mut parser), Err(ParseTaskError));
}

#[test]
fn priority_order_reversed() {
    assert!(Priority::B > Priority::C);
    assert!(Priority::Y > Priority::Z);
    assert!(Priority::A > Priority::Z);
    assert!(Priority::M < Priority::L);
    for code in 0..26u8 {
        let all = [
            Priority::A,
            Priority::B,
            Priority::C,
            Priority::D,
            Priority::E,
            Priority::F,
            Priority::G,
            Priority::H,
            Priority::I,
            Priority::J,
            Priority::K,
            Priority::L,
            Priority::M,
            Priority::N,
            Priority::O,
            Priority::P,
            Priority::Q,
            Priority::R,
            Priority::S,
            Priority::T,
            Priority::U,
            Priority::V,
            Priority::W,
            Priority::X,
            Priority::Y,
            Priority::Z,
        ];
        let p = all[code as usize];
        assert_eq!(p.code(), code);
        assert!(p <= Priority::A);
        assert!(p >= Priority::Z);
    }
}

#[test]
fn spans_and_positions() {
    let span = ByteSpan::new(BytePos::from_u32(7), BytePos::from_u32(3));
    assert_eq!(span.low.as_u32(), 3);
    assert_eq!(span.high.as_u32(), 7);
    assert_eq!(span.len(), 4);
    assert_eq!(span.to_range_usize(), 3..7);

    let other = ByteSpan::from_range(9..12);
    let union = span.union(&other);
    assert_eq!(union.low.as_u32(), 3);
    assert_eq!(union.high.as_u32(), 12);

    let pos = BytePos::from_usize(10);
    assert_eq!(pos.offset(-3).as_usize(), 7);
    assert_eq!(pos.offset(5).as_u32(), 15);

    let shifted = span.offset(2);
    assert_eq!(shifted.low.as_u32(), 5);
    assert_eq!(shifted.high.as_u32(), 9);
    assert_eq!(span.with_low(BytePos::from_u32(0)).low.as_u32(), 0);
    assert_eq!(span.with_high(BytePos::from_u32(8)).high.as_u32(), 8);
    assert_eq!(span.offset_low(1).low.as_u32(), 4);
    assert_eq!(span.offset_high(-1).high.as_u32(), 6);
}

#[test]
fn range_records_index_text() {
    let description = Description::new("pick up +milk @store due:today");
    let text = description.description();

    let task = Task::from_str("pick up +milk @store due:today").unwrap();
    assert_eq!(task.description(), &description);
    assert_eq!(description.projects(), vec!["milk"]);
    assert_eq!(description.contexts(), vec!["store"]);
    assert_eq!(description.custom(), vec![("due".to_string(), "today".to_string())]);
    assert_eq!(text, "pick up +milk @store due:today");
}

#[test]
fn state_parse_rules() {
    // an `x` must be followed by whitespace or the end to count
    let task = Task::from_str("xylophone lessons").unwrap();
    assert_eq!(task.state(), &State::Open);
    assert_eq!(task.description().description(), "xylophone lessons");

    let task = Task::from_str("x done it").unwrap();
    assert_eq!(task.state(), &State::Done);
    assert_eq!(task.description().description(), "done it");
}

#[test]
fn parser_error_variants() {
    let mut parser = Parser::new(b"y");
    assert_eq!(State::parse(&mut parser), Err(ParseStateError));

    let mut parser = Parser::new(b"(a)");
    assert_eq!(Priority::parse(&mut parser), Err(ParsePriorityError));

    let mut parser = Parser::new(b"(AB)");
    assert_eq!(Priority::parse(&mut parser), Err(ParsePriorityError));

    let mut parser = Parser::new(b"2014-10");
    assert_eq!(Date::parse(&mut parser), Err(ParseDateError));

    let mut parser = Parser::new(b"2015-02-29");
    assert_eq!(Date::parse(&mut parser), Err(ParseDateError));

    let mut parser = Parser::new(b"no date here");
    assert_eq!(DateCompound::parse(&mut parser), Err(ParseDateCompoundError));

    let mut parser = Parser::new(b"");
    assert_eq!(Description::parse(&mut parser), Err(ParseDescriptionError));
}

#[test]
fn simple_date_bounds() {
    let date = SimpleDate::from_ymd(2014, 2, 30);
    assert_eq!(date.year(), 2014);
    assert_eq!(date.month(), 2);
    assert_eq!(date.day(), 30);

    // only the static per-field bounds are checked
    assert!(SimpleDate::from_ymd_opt(2014, 2, 30).is_some());
    assert!(SimpleDate::from_ymd_opt(2014, 0, 1).is_none());
    assert!(SimpleDate::from_ymd_opt(2014, 13, 1).is_none());
    assert!(SimpleDate::from_ymd_opt(2014, 1, 0).is_none());
    assert!(SimpleDate::from_ymd_opt(2014, 1, 32).is_none());
    assert!(SimpleDate::from_ymd_opt(-44, 3, 15).is_some());
}

#[test]
fn parser_primitives() {
    let mut parser = Parser::new(b"ab1 rest");
    assert_eq!(parser.peek(), Some(b'a'));
    assert_eq!(parser.parse_alpha(), Some('a'));
    assert_eq!(parser.parse_alpha_lower(), Some('b'));
    assert_eq!(parser.parse_alpha_upper(), None);
    assert_eq!(parser.parse_digit(), Some(1));
    assert_eq!(parser.expect_whitespace(), Some(()));
    assert_eq!(parser.expect_slice(b"rest".as_slice()), Some(b"rest".as_slice()));
    assert!(parser.is_eof());
    assert_eq!(parser.parse_u8(), None);

    let mut parser = Parser::new(b"stop\nafter");
    assert_eq!(parser.parse_until(b'\n'), Some(b"stop".as_slice()));
    assert_eq!(parser.parse_u8(), Some(b'\n'));
    assert_eq!(parser.expect_u8(b'a'), Some(b'a'));
}

#[test]
fn from_str_tokens() {
    assert_eq!(State::from_str("x"), Ok(State::Done));
    assert!(State::from_str("xy").is_err());
    assert!(State::from_str("").is_err());

    assert_eq!(Priority::from_str("(H)"), Ok(Priority::H));
    assert!(Priority::from_str("(H) trailing").is_err());

    assert_eq!(Date::from_str("2020-01-01"), Ok(Date::from_ymd(2020, 1, 1)));
    assert!(Date::from_str("2020-01-01 ").is_err());

    assert_eq!(
        DateCompound::from_str("2000-01-01 1970-01-01"),
        Ok(DateCompound::Completed {
            created: Date::from_ymd(1970, 1, 1),
            completed: Date::from_ymd(2000, 1, 1),
        })
    );

    assert_eq!(Description::from_str("foo bar"), Ok(Description::new("foo bar")));
    assert!(Description::from_str("foo\nbar").is_err());
}

#[test]
fn consume_n_exact() {
    let mut cursor = Cursor::new(b"abcd");
    assert_eq!(cursor.consume_n(2), Some(b"ab".as_slice()));
    // exactly the remaining bytes can be consumed atomically
    assert_eq!(cursor.consume_n(2), Some(b"cd".as_slice()));
    assert!(cursor.is_eof());
    assert_eq!(cursor.consume_n(1), None);

    let mut cursor = Cursor::new(b"abc");
    assert_eq!(cursor.consume_n(4), None);
    assert_eq!(cursor.index(), 0);
    assert_eq!(cursor.consume_n(0), Some(b"".as_slice()));
}

#[test]
fn expect_slice_empty_fails() {
    let mut parser = Parser::new(b"abc");
    assert_eq!(parser.expect_slice(b"".as_slice()), None);
    assert_eq!(parser.expect_u8(b'a'), Some(b'a'));
    assert_eq!(parser.expect_slice(b"bcd".as_slice()), None);
    assert_eq!(parser.expect_slice(b"bc".as_slice()), Some(b"bc".as_slice()));
    assert!(parser.is_eof());
}

#[test]
fn task_parse_opt_rolls_back() {
    let mut parser = Parser::new(b"(C) laundry\n");
    let task = Task::parse_opt(&mut parser).unwrap();
    assert_eq!(task.priority(), Some(&Priority::C));
    assert_eq!(task.description().description(), "laundry");

    // at the end of the input there is no task; the parser does not move
    assert_eq!(Task::parse_opt(&mut parser), None);
    assert!(parser.is_eof());

    let mut parser = Parser::new(b"");
    assert_eq!(Task::parse_opt(&mut parser), None);
}

#[test]
fn priority_from_char() {
    assert_eq!(Priority::from_char('A'), Some(Priority::A));
    assert_eq!(Priority::from_char('M'), Some(Priority::M));
    assert_eq!(Priority::from_char('Z'), Some(Priority::Z));
    assert_eq!(Priority::from_char('a'), None);
    assert_eq!(Priority::from_char('('), None);
    assert_eq!(Priority::from_char('0'), None);
}
