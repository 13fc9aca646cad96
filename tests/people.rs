use people_store::boundary::{
    create_person, database_url, error_message, error_status, success_status, Operation,
    SearchParams, ServiceError,
};
use people_store::date::{parse_date, Date};
use people_store::person::{prepare_person, validate_stack, NewPerson, Person, ValidationError};
use people_store::search::{like_pattern, matches_folded, search_text_of};
use people_store::table::{PeopleTable, RepositoryError, SEARCH_LIMIT};

fn date(y: i32, m: u8, d: u8) -> Date {
    Date::new(y, m, d).unwrap()
}

fn input(name: &str, nick: &str, stack: Option<Vec<&str>>) -> NewPerson {
    NewPerson {
        nick: nick.to_string(),
        name: name.to_string(),
        birthday: date(1990, 5, 10),
        stack: stack.map(|v| v.into_iter().map(|s| s.to_string()).collect()),
    }
}

fn record(id: u128, name: &str, nick: &str) -> Person {
    Person {
        id,
        nick: nick.to_string(),
        name: name.to_string(),
        birthday: date(2000, 1, 1),
        stack: None,
    }
}

#[test]
fn ana_is_created_found_and_searched() {
    let mut table = PeopleTable::new();
    let created = create_person(
        &mut table,
        input("Ana Silva", "ana", Some(vec!["Go", "SQL"])),
    )
    .unwrap();
    assert_eq!(success_status(Operation::CreatePerson), 201);
    assert_eq!(created.name, "Ana Silva");
    assert_eq!(created.nick, "ana");
    assert_eq!(created.birthday.to_iso_string(), "1990-05-10");
    assert_eq!(
        created.stack,
        Some(vec![Some("Go".to_string()), Some("SQL".to_string())])
    );
    let found = table.get_people_by_id(created.id).unwrap();
    assert_eq!(found, created);
    let hits = table.search_people("sql");
    assert_eq!(hits, vec![created.clone()]);
    assert!(table.search_people("zzz").is_empty());
}

#[test]
fn same_nick_twice_conflicts_and_counts_once() {
    let mut table = PeopleTable::new();
    assert!(create_person(&mut table, input("Ana Silva", "ana", None)).is_ok());
    let second = create_person(&mut table, input("Ana Souza", "ana", None));
    assert_eq!(second, Err(ServiceError::Conflict));
    assert_eq!(error_status(ServiceError::Conflict), 422);
    assert_eq!(table.count_people(), 1);
    let with_nick = table.search_people("ana");
    assert_eq!(with_nick.len(), 1);
    assert_eq!(with_nick[0].name, "Ana Silva");
}

#[test]
fn name_of_101_characters_is_refused_before_the_store() {
    let mut table = PeopleTable::new();
    let long_name = "a".repeat(101);
    let r = create_person(&mut table, input(&long_name, "ana", None));
    assert_eq!(r, Err(ServiceError::Validation(ValidationError::Name)));
    assert_eq!(error_status(r.unwrap_err()), 422);
    assert_eq!(table.count_people(), 0);
    let ok_name = "a".repeat(100);
    assert!(create_person(&mut table, input(&ok_name, "ana", None)).is_ok());
}

#[test]
fn create_then_get_returns_the_input() {
    let mut table = PeopleTable::new();
    let p = Person {
        id: 7,
        nick: "bob".to_string(),
        name: "Bob".to_string(),
        birthday: date(1985, 12, 31),
        stack: Some(vec![Some("Rust".to_string()), None]),
    };
    assert_eq!(table.create_people(p.clone()), Ok(p.clone()));
    assert_eq!(table.get_people_by_id(7), Ok(p));
}

#[test]
fn duplicate_nick_with_other_name_conflicts() {
    let mut table = PeopleTable::new();
    assert!(table.create_people(record(1, "Carla", "cal")).is_ok());
    assert_eq!(
        table.create_people(record(2, "Carlos", "cal")),
        Err(RepositoryError::Conflict)
    );
    assert_eq!(table.count_people(), 1);
    assert_eq!(table.get_people_by_id(1).unwrap().name, "Carla");
    assert_eq!(table.get_people_by_id(2), Err(RepositoryError::NotFound));
}

#[test]
fn duplicate_identifier_conflicts() {
    let mut table = PeopleTable::new();
    assert!(table.create_people(record(1, "Carla", "cal")).is_ok());
    assert_eq!(
        table.create_people(record(1, "Dora", "dora")),
        Err(RepositoryError::Conflict)
    );
    assert_eq!(table.count_people(), 1);
}

#[test]
fn unknown_identifier_is_not_found() {
    let mut table = PeopleTable::new();
    assert_eq!(table.get_people_by_id(42), Err(RepositoryError::NotFound));
    assert!(table.create_people(record(1, "Eva", "eva")).is_ok());
    assert_eq!(table.get_people_by_id(42), Err(RepositoryError::NotFound));
    assert_eq!(error_status(ServiceError::from_repository(RepositoryError::NotFound)), 404);
}

#[test]
fn search_returns_at_most_fifty() {
    let mut table = PeopleTable::new();
    for i in 0..60u128 {
        let nick = format!("dev{}", i);
        assert!(table.create_people(record(i, "Dev", &nick)).is_ok());
    }
    assert_eq!(SEARCH_LIMIT, 50);
    let hits = table.search_people("dev");
    assert_eq!(hits.len(), 50);
    assert_eq!(hits[0].id, 0);
    assert_eq!(hits[49].id, 49);
    assert_eq!(table.search_people("dev5").len(), 11);
}

#[test]
fn empty_term_matches_every_record() {
    let mut table = PeopleTable::new();
    assert!(table.search_people("").is_empty());
    assert!(table.create_people(record(1, "Fabio", "fab")).is_ok());
    assert!(table.create_people(record(2, "Gil", "gil")).is_ok());
    assert_eq!(table.search_people("").len(), 2);
}

#[test]
fn count_follows_successful_creates() {
    let mut table = PeopleTable::new();
    assert_eq!(table.count_people(), 0);
    assert!(table.create_people(record(1, "Hugo", "hugo")).is_ok());
    assert_eq!(table.count_people(), 1);
    assert!(table.create_people(record(2, "Hugo", "hugo")).is_err());
    assert_eq!(table.count_people(), 1);
    assert!(table.create_people(record(3, "Ines", "ines")).is_ok());
    assert_eq!(table.count_people(), 2);
}

#[test]
fn search_ignores_case_and_looks_in_every_field() {
    let mut table = PeopleTable::new();
    let mut p = record(1, "José Álvarez", "JoJo");
    p.stack = Some(vec![Some("PostgreSQL".to_string()), None, Some("Rust".to_string())]);
    assert!(table.create_people(p).is_ok());
    assert_eq!(table.search_people("JOSÉ").len(), 1);
    assert_eq!(table.search_people("álvarez").len(), 1);
    assert_eq!(table.search_people("jojo").len(), 1);
    assert_eq!(table.search_people("postgresql").len(), 1);
    assert_eq!(table.search_people("RUST").len(), 1);
    assert_eq!(table.search_people("python").len(), 0);
}

#[test]
fn search_text_concatenates_fields() {
    let mut p = record(1, "Ana Silva", "ana");
    p.stack = Some(vec![Some("Go".to_string()), None, Some("SQL".to_string())]);
    assert_eq!(search_text_of(&p), "Ana SilvaanaGoSQL");
    assert_eq!(search_text_of(&record(2, "B", "b")), "Bb");
}

#[test]
fn folded_match_is_a_plain_substring_test() {
    assert!(matches_folded("sql", "ana silva ana go sql"));
    assert!(matches_folded("", ""));
    assert!(!matches_folded("SQL", "ana silva ana go sql"));
    assert!(!matches_folded("sqlx", "sql"));
    assert!(matches_folded("a s", "ana silva"));
}

#[test]
fn like_pattern_escapes_wildcards() {
    assert_eq!(like_pattern("ana"), "%ana%");
    assert_eq!(like_pattern(""), "%%");
    assert_eq!(like_pattern("50%_a\\b"), "%50\\%\\_a\\\\b%");
}

#[test]
fn nick_bounds_are_checked() {
    assert_eq!(input("Ana", "", None).validate(), Err(ValidationError::Nick));
    assert_eq!(
        input("Ana", &"n".repeat(33), None).validate(),
        Err(ValidationError::Nick)
    );
    assert_eq!(input("Ana", &"n".repeat(32), None).validate(), Ok(()));
    assert_eq!(input("", "ana", None).validate(), Err(ValidationError::Name));
    assert_eq!(input("", "", None).validate(), Err(ValidationError::Nick));
}

#[test]
fn stack_entries_are_counted_in_characters() {
    let long = "x".repeat(33);
    let accented = "é".repeat(32);
    assert_eq!(
        validate_stack(&vec!["Go".to_string(), long.clone(), long.clone()]),
        Err(ValidationError::StackEntry(1))
    );
    assert_eq!(validate_stack(&vec![accented.clone(), String::new()]), Ok(()));
    assert_eq!(validate_stack(&vec![]), Ok(()));
    assert_eq!(
        input("Ana", "ana", Some(vec!["Go", &long])).validate(),
        Err(ValidationError::StackEntry(1))
    );
    assert_eq!(input("Ana", "ana", Some(vec![])).validate(), Ok(()));
}

#[test]
fn prepared_person_gets_a_version_seven_identifier() {
    let p = prepare_person(input("Ana Silva", "ana", Some(vec!["Go"]))).unwrap();
    assert_eq!((p.id >> 76) & 0xf, 7);
    assert_eq!((p.id >> 62) & 3, 2);
    assert_eq!(p.stack, Some(vec![Some("Go".to_string())]));
    let q = prepare_person(input("Ana Silva", "ana", None)).unwrap();
    assert_ne!(p.id, q.id);
    assert_eq!(q.stack, None);
    assert_eq!(
        prepare_person(input(&"a".repeat(101), "ana", None)),
        Err(ValidationError::Name)
    );
}

#[test]
fn from_new_keeps_every_field() {
    let p = Person::from_new(9, input("Ana", "ana", Some(vec!["Go", "SQL"])));
    assert_eq!(p.id, 9);
    assert_eq!(p.name, "Ana");
    assert_eq!(p.nick, "ana");
    assert_eq!(p.birthday, date(1990, 5, 10));
    assert_eq!(
        p.stack,
        Some(vec![Some("Go".to_string()), Some("SQL".to_string())])
    );
}

#[test]
fn dates_parse_in_the_fixed_format() {
    assert_eq!(parse_date("1990-05-10"), Some(date(1990, 5, 10)));
    assert_eq!(parse_date("2000-02-29"), Some(date(2000, 2, 29)));
    assert_eq!(parse_date("1900-02-29"), None);
    assert_eq!(parse_date("2023-04-31"), None);
    assert_eq!(parse_date("2023-13-01"), None);
    assert_eq!(parse_date("2023-00-10"), None);
    assert_eq!(parse_date("1990-5-10"), None);
    assert_eq!(parse_date("1990/05/10"), None);
    assert_eq!(parse_date("199a-05-10"), None);
    assert_eq!(parse_date(""), None);
    assert_eq!(parse_date("1990-05-10T00:00"), None);
}

#[test]
fn dates_are_written_in_the_fixed_format() {
    assert_eq!(date(1990, 5, 10).to_iso_string(), "1990-05-10");
    assert_eq!(date(7, 1, 9).to_iso_string(), "0007-01-09");
    assert_eq!(date(-44, 3, 15).to_iso_string(), "-0044-03-15");
    assert_eq!(Date::new(10000, 1, 1), None);
    assert_eq!(Date::new(-9999, 1, 1), Some(Date { year: -9999, month: 1, day: 1 }));
    assert_eq!(Date::new(2024, 2, 29).map(|d| d.day), Some(29));
    assert_eq!(Date::new(2023, 2, 29), None);
    let d = parse_date("2024-12-31").unwrap();
    assert_eq!(parse_date(&d.to_iso_string()), Some(d));
}

#[test]
fn statuses_and_messages_follow_the_error_kind() {
    assert_eq!(success_status(Operation::GetById), 200);
    assert_eq!(success_status(Operation::SearchByTerm), 200);
    assert_eq!(success_status(Operation::CountAll), 200);
    assert_eq!(error_status(ServiceError::Validation(ValidationError::Nick)), 422);
    assert_eq!(error_status(ServiceError::NotFound), 404);
    assert_eq!(error_status(ServiceError::StoreUnavailable), 500);
    assert_eq!(error_status(ServiceError::ConnectionUnavailable), 500);
    assert_eq!(error_message(ServiceError::ConnectionUnavailable), "DB connection failed");
    assert_eq!(error_message(ServiceError::StoreUnavailable), "Internal Server Error");
    assert_eq!(error_message(ServiceError::NotFound), "Not Found");
    assert_eq!(error_message(ServiceError::Conflict), "Unprocessable Entity");
    assert_eq!(
        error_message(ServiceError::Validation(ValidationError::Name)),
        "Validation failed"
    );
    assert_eq!(
        ServiceError::from_repository(RepositoryError::StoreUnavailable),
        ServiceError::StoreUnavailable
    );
}

#[test]
fn dedicated_database_url_wins() {
    let a = Some("postgres://a".to_string());
    let b = Some("postgres://b".to_string());
    assert_eq!(database_url(a.clone(), b.clone()), a);
    assert_eq!(database_url(None, b.clone()), b);
    assert_eq!(database_url(None, None), None);
    let params = SearchParams { t: "x".to_string() };
    assert_eq!(params.t, "x");
}

#[test]
fn birthday_text_must_be_a_date() {
    let n = NewPerson::from_fields("ana".to_string(), "Ana".to_string(), "1990-05-10", None).unwrap();
    assert_eq!(n.birthday, date(1990, 5, 10));
    assert_eq!(n.nick, "ana");
    assert_eq!(
        NewPerson::from_fields("ana".to_string(), "Ana".to_string(), "10/05/1990", None),
        Err(ValidationError::Birthday)
    );
    assert_eq!(
        NewPerson::from_fields("ana".to_string(), "Ana".to_string(), "1990-02-30", None),
        Err(ValidationError::Birthday)
    );
    assert_eq!(error_status(ServiceError::Validation(ValidationError::Birthday)), 422);
}

#[test]
fn date_text_has_one_spelling() {
    for text in ["0007-01-09", "1990-05-10", "2000-02-29", "9999-12-31", "0000-01-01"] {
        assert_eq!(parse_date(text).unwrap().to_iso_string(), text);
    }
    let d = date(2024, 2, 29);
    assert_eq!(parse_date(&d.to_iso_string()), Some(d));
}
