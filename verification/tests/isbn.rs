use kyodoku::isbn::{
    display_title, google_books_url, is_valid_isbn13, manual_metadata, metadata_from_google_books,
    metadata_from_open_library, normalize, open_library_url, GoogleVolume, IsbnError, IsbnMetadata,
    next_lookup_step, LookupError, LookupStep, MetadataSource, NormalizedIsbn,
};

#[test]
fn isbn10_becomes_isbn13_with_new_check_digit() {
    let n = normalize("0-306-40615-2").unwrap();
    assert_eq!(n.isbn_13, "9780306406157");
    assert_eq!(n.isbn_10, Some("0306406152".to_string()));
    let n = normalize("4062935563").unwrap();
    assert_eq!(n.isbn_13, "9784062935562");
}

#[test]
fn isbn10_with_check_character_x() {
    let n = normalize("0-8044-2957-X").unwrap();
    assert_eq!(n.isbn_13, "9780804429573");
    assert_eq!(n.isbn_10, Some("080442957X".to_string()));
    assert_eq!(normalize("080442957x").unwrap().isbn_10, Some("080442957X".to_string()));
    assert_eq!(normalize("X-8044-2957-1").unwrap_err(), IsbnError::WrongDigitCount);
    assert_eq!(normalize("080442957").unwrap_err(), IsbnError::WrongDigitCount);
}

#[test]
fn isbn13_is_kept_when_valid() {
    let n = normalize("978-0-306-40615-7").unwrap();
    assert_eq!(n.isbn_13, "9780306406157");
    assert_eq!(n.isbn_10, None);
}

#[test]
fn isbn_errors() {
    assert_eq!(normalize("978-0-306-40615-8").unwrap_err(), IsbnError::InvalidIsbn13);
    assert_eq!(normalize("12345").unwrap_err(), IsbnError::WrongDigitCount);
    assert_eq!(normalize("").unwrap_err(), IsbnError::WrongDigitCount);
    assert_eq!(IsbnError::InvalidIsbn13.message(), "invalid ISBN-13");
    assert_eq!(IsbnError::WrongDigitCount.message(), "ISBN must be 10 or 13 digits");
    assert_eq!(IsbnError::NotTenDigits.message(), "ISBN-10 must have 10 digits");
}

#[test]
fn normalising_twice_changes_nothing() {
    let once = normalize("0 306 40615 2").unwrap();
    let twice = normalize(&once.isbn_13).unwrap();
    assert_eq!(twice.isbn_13, once.isbn_13);
    assert_eq!(twice.isbn_10, None);
    assert!(is_valid_isbn13(&once.isbn_13));
}

#[test]
fn non_digits_are_ignored() {
    assert_eq!(normalize("ISBN 0-306-40615-2").unwrap().isbn_13, normalize("0306406152").unwrap().isbn_13);
}

#[test]
fn check_digit_validation() {
    assert!(is_valid_isbn13("9780306406157"));
    assert!(!is_valid_isbn13("9780306406158"));
    assert!(!is_valid_isbn13("978030640615"));
    assert!(!is_valid_isbn13("978030640615x"));
}

#[test]
fn titles_and_sources() {
    assert_eq!(display_title("T", &Some("S".to_string())), "T: S");
    assert_eq!(display_title("T", &Some(String::new())), "T");
    assert_eq!(display_title("T", &None), "T");
    assert_eq!(MetadataSource::OpenLibrary.as_str(), "open_library");
    assert_eq!(MetadataSource::GoogleBooks.as_str(), "google_books");
    assert_eq!(MetadataSource::Manual.as_str(), "manual");
    let m = IsbnMetadata {
        isbn_13: "x".to_string(),
        isbn_10: None,
        title: "A".to_string(),
        subtitle: Some("B".to_string()),
        authors: vec![],
        source: MetadataSource::Manual,
    };
    assert_eq!(m.display_title(), "A: B");
}

fn sample() -> NormalizedIsbn {
    NormalizedIsbn { isbn_13: "9780306406157".to_string(), isbn_10: Some("0306406152".to_string()) }
}

#[test]
fn catalogue_urls() {
    assert_eq!(open_library_url("9780306406157"), "https://openlibrary.org/isbn/9780306406157.json");
    assert_eq!(
        google_books_url("9780306406157"),
        "https://www.googleapis.com/books/v1/volumes?q=isbn:9780306406157"
    );
}

#[test]
fn open_library_record() {
    let m = metadata_from_open_library(
        &sample(),
        Some("T".to_string()),
        None,
        vec![Some("A".to_string()), None, Some("B".to_string())],
    )
    .unwrap();
    assert_eq!(m.isbn_13, "9780306406157");
    assert_eq!(m.authors, vec!["A".to_string(), "B".to_string()]);
    assert_eq!(m.source, MetadataSource::OpenLibrary);
    assert!(metadata_from_open_library(&sample(), None, None, vec![]).is_none());
}

#[test]
fn google_books_record() {
    let items = vec![
        GoogleVolume { title: Some("G".to_string()), subtitle: Some("S".to_string()), authors: None },
        GoogleVolume { title: Some("Other".to_string()), subtitle: None, authors: None },
    ];
    let m = metadata_from_google_books(&sample(), items).unwrap();
    assert_eq!(m.title, "G");
    assert_eq!(m.subtitle, Some("S".to_string()));
    assert!(m.authors.is_empty());
    assert_eq!(m.source, MetadataSource::GoogleBooks);
    assert!(metadata_from_google_books(&sample(), vec![]).is_none());
    let untitled = vec![GoogleVolume { title: None, subtitle: None, authors: None }];
    assert!(metadata_from_google_books(&sample(), untitled).is_none());
}

#[test]
fn manual_record_or_unresolved() {
    let m = manual_metadata(&sample(), Some("Hand")).unwrap();
    assert_eq!(m.title, "Hand");
    assert_eq!(m.source, MetadataSource::Manual);
    let e = manual_metadata(&sample(), None).unwrap_err();
    assert_eq!(e, LookupError::Unresolved { isbn_13: "9780306406157".to_string() });
    assert_eq!(
        e.message(),
        "Unable to resolve metadata for ISBN 9780306406157. It may be a pre-release or newly published title; please consider adding it to Open Library (https://openlibrary.org)."
    );
}

fn record_from(source: MetadataSource, title: &str) -> IsbnMetadata {
    IsbnMetadata {
        isbn_13: "9780306406157".to_string(),
        isbn_10: Some("0306406152".to_string()),
        title: title.to_string(),
        subtitle: None,
        authors: vec![],
        source,
    }
}

fn found_title(s: LookupStep) -> String {
    match s {
        LookupStep::Found(m) => m.title,
        other => panic!("expected a record, got {other:?}"),
    }
}

#[test]
fn lookup_asks_google_books_first() {
    let ol = Some(Some(record_from(MetadataSource::OpenLibrary, "O")));
    assert!(matches!(next_lookup_step(&sample(), None, None, None), LookupStep::AskGoogleBooks));
    assert!(matches!(next_lookup_step(&sample(), None, ol, Some("H")), LookupStep::AskGoogleBooks));
}

#[test]
fn lookup_takes_google_books_when_it_knows() {
    let gb = Some(Some(record_from(MetadataSource::GoogleBooks, "G")));
    let ol = Some(Some(record_from(MetadataSource::OpenLibrary, "O")));
    assert_eq!(found_title(next_lookup_step(&sample(), gb, ol, Some("H"))), "G");
}

#[test]
fn lookup_falls_back_to_open_library_then_the_given_title() {
    assert!(matches!(next_lookup_step(&sample(), Some(None), None, Some("H")), LookupStep::AskOpenLibrary));
    let ol = Some(Some(record_from(MetadataSource::OpenLibrary, "O")));
    assert_eq!(found_title(next_lookup_step(&sample(), Some(None), ol, Some("H"))), "O");
    match next_lookup_step(&sample(), Some(None), Some(None), Some("H")) {
        LookupStep::Found(m) => {
            assert_eq!(m.title, "H");
            assert_eq!(m.source, MetadataSource::Manual);
        }
        other => panic!("expected the manual record, got {other:?}"),
    }
    match next_lookup_step(&sample(), Some(None), Some(None), None) {
        LookupStep::Failed(e) => {
            assert_eq!(e, LookupError::Unresolved { isbn_13: "9780306406157".to_string() })
        }
        other => panic!("expected the lookup to fail, got {other:?}"),
    }
}
