//! ISBN normalisation (ISBN-10 → ISBN-13 with check digit) and the
//! book metadata record that the rest of the bot works with.

use vstd::prelude::*;
use crate::text::{
    all_digits, ascii_digit, chars_of, digit_char, digit_value, is_ascii_digit, lemma_digit_char_value,
    string_of,
};

verus! {

/// A normalised ISBN: always the ISBN-13, plus the ISBN-10 it came from.
#[derive(Debug, Clone)]
pub struct NormalizedIsbn {
    pub isbn_13: String,
    pub isbn_10: Option<String>,
}

/// Book metadata as resolved from a catalogue or entered by hand.
#[derive(Debug, Clone)]
pub struct IsbnMetadata {
    pub isbn_13: String,
    pub isbn_10: Option<String>,
    pub title: String,
    pub subtitle: Option<String>,
    pub authors: Vec<String>,
    pub source: MetadataSource,
}

/// Where a metadata record came from.
#[derive(Debug, Clone, Copy, PartialEq, Eq)]
pub enum MetadataSource {
    OpenLibrary,
    GoogleBooks,
    Manual,
}

/// Why a code could not be normalised.
#[derive(Debug, Clone, Copy, PartialEq, Eq)]
pub enum IsbnError {
    /// Thirteen digits whose check digit does not match.
    InvalidIsbn13,
    /// Neither ten nor thirteen digits.
    WrongDigitCount,
    /// `isbn10_to_13` was handed something other than ten digits.
    NotTenDigits,
}

/// Why no metadata could be produced for an ISBN.
#[derive(Debug, Clone, PartialEq, Eq)]
pub enum LookupError {
    Unresolved { isbn_13: String },
}

/// The ASCII digits of `s`, in order (everything else, hyphens included, dropped).
pub open spec fn ascii_digits_of(s: Seq<char>) -> Seq<char>
    decreases s.len(),
{
    if s.len() == 0 {
        Seq::empty()
    } else if is_ascii_digit(s.last()) {
        ascii_digits_of(s.drop_last()).push(s.last())
    } else {
        ascii_digits_of(s.drop_last())
    }
}

/// The last character of `s` that is an ASCII digit or an `X` (either case)
/// is an `X`: the check character 10 of an ISBN-10.
pub open spec fn trailing_x(s: Seq<char>) -> bool
    decreases s.len(),
{
    if s.len() == 0 {
        false
    } else if is_ascii_digit(s.last()) {
        false
    } else if s.last() == 'X' || s.last() == 'x' {
        true
    } else {
        trailing_x(s.drop_last())
    }
}

/// Sum of the digits of `s` weighted 1, 3, 1, 3, ... from the left.
pub open spec fn isbn13_weighted_sum(s: Seq<char>) -> int
    decreases s.len(),
{
    if s.len() == 0 {
        0
    } else {
        isbn13_weighted_sum(s.drop_last()) + (if (s.len() - 1) % 2 == 0 {
            1int
        } else {
            3int
        }) * digit_value(s.last())
    }
}

/// The ISBN-13 check digit for the digits `s`.
pub open spec fn isbn13_check_digit(s: Seq<char>) -> int {
    let r = isbn13_weighted_sum(s) % 10;
    if r == 0 {
        0
    } else {
        10 - r
    }
}

/// Thirteen ASCII digits whose last one is the check digit of the first twelve.
pub open spec fn valid_isbn13(s: Seq<char>) -> bool {
    &&& s.len() == 13
    &&& all_digits(s)
    &&& isbn13_check_digit(s.take(12)) == digit_value(s[12])
}

/// The ISBN-13 of a ten-digit ISBN-10: `978`, its first nine digits, a new check digit.
pub open spec fn isbn13_from_isbn10(isbn_10: Seq<char>) -> Seq<char> {
    let prefix = seq!['9', '7', '8'] + isbn_10.take(9);
    prefix.push(digit_char(isbn13_check_digit(prefix) as nat))
}

/// What `normalize` gives for `code`: the ISBN-13 and, for an ISBN-10
/// (ten digits, or nine digits and a final check character `X`), the ISBN-10.
pub open spec fn normalized(code: Seq<char>) -> Result<(Seq<char>, Option<Seq<char>>), IsbnError> {
    let d = ascii_digits_of(code);
    if d.len() == 9 && trailing_x(code) {
        Ok((isbn13_from_isbn10(d.push('X')), Some(d.push('X'))))
    } else if d.len() == 10 {
        Ok((isbn13_from_isbn10(d), Some(d)))
    } else if d.len() == 13 {
        if valid_isbn13(d) {
            Ok((d, None))
        } else {
            Err(IsbnError::InvalidIsbn13)
        }
    } else {
        Err(IsbnError::WrongDigitCount)
    }
}

/// `title`, or `title: subtitle` when there is a non-empty subtitle.
pub open spec fn titled(title: Seq<char>, subtitle: Option<Seq<char>>) -> Seq<char> {
    match subtitle {
        Some(sub) => if sub.len() > 0 {
            title + ": "@ + sub
        } else {
            title
        },
        None => title,
    }
}

/// The name under which a source is stored.
pub open spec fn source_name(source: MetadataSource) -> Seq<char> {
    match source {
        MetadataSource::OpenLibrary => "open_library"@,
        MetadataSource::GoogleBooks => "google_books"@,
        MetadataSource::Manual => "manual"@,
    }
}

/// The names that are present, in order (`filter_map` over `Option`).
pub open spec fn present_names(names: Seq<Option<String>>) -> Seq<String>
    decreases names.len(),
{
    if names.len() == 0 {
        Seq::empty()
    } else {
        match names.last() {
            Some(n) => present_names(names.drop_last()).push(n),
            None => present_names(names.drop_last()),
        }
    }
}

impl IsbnError {
    /// The message shown to the user for this error.
    pub fn message(&self) -> (m: String)
        ensures
            m@ == isbn_error_text(*self),
    {
        match self {
            IsbnError::InvalidIsbn13 => String::from_str("invalid ISBN-13"),
            IsbnError::WrongDigitCount => String::from_str("ISBN must be 10 or 13 digits"),
            IsbnError::NotTenDigits => String::from_str("ISBN-10 must have 10 digits"),
        }
    }
}

/// The message of an ISBN error.
pub open spec fn isbn_error_text(e: IsbnError) -> Seq<char> {
    match e {
        IsbnError::InvalidIsbn13 => "invalid ISBN-13"@,
        IsbnError::WrongDigitCount => "ISBN must be 10 or 13 digits"@,
        IsbnError::NotTenDigits => "ISBN-10 must have 10 digits"@,
    }
}

/// The message of a lookup error: what failed, and what the user can do.
pub open spec fn lookup_error_text(e: LookupError) -> Seq<char> {
    match e {
        LookupError::Unresolved { isbn_13 } => "Unable to resolve metadata for ISBN "@ + isbn_13@
            + UNRESOLVED_GUIDANCE@,
    }
}

/// What follows an unresolved lookup: the book may be too new to be listed.
pub const UNRESOLVED_GUIDANCE: &'static str = ". It may be a pre-release or newly published title; please consider adding it to Open Library (https://openlibrary.org).";

impl LookupError {
    /// The message shown to the user for this error.
    pub fn message(&self) -> (m: String)
        ensures
            m@ == lookup_error_text(*self),
    {
        match self {
            LookupError::Unresolved { isbn_13 } => {
                let mut m = String::from_str("Unable to resolve metadata for ISBN ");
                m.append(isbn_13.as_str());
                m.append(UNRESOLVED_GUIDANCE);
                m
            },
        }
    }
}

impl IsbnMetadata {
    /// The title with its subtitle, when it has a non-empty one.
    pub fn display_title(&self) -> (t: String)
        ensures
            t@ == titled(self.title@, self.subtitle.deep_view()),
    {
        display_title(self.title.as_str(), &self.subtitle)
    }
}

/// `title`, or `title: subtitle` when `subtitle` is present and non-empty.
pub fn display_title(title: &str, subtitle: &Option<String>) -> (t: String)
    ensures
        t@ == titled(title@, subtitle.deep_view()),
{
    let mut t = String::from_str(title);
    match subtitle {
        Some(sub) => {
            if sub.as_str().is_empty() {
            } else {
                t.append(": ");
                t.append(sub.as_str());
            }
        },
        None => {},
    }
    t
}

impl MetadataSource {
    /// The name stored in the database for this source.
    pub fn as_str(&self) -> (s: &'static str)
        ensures
            s@ == source_name(*self),
    {
        match self {
            MetadataSource::OpenLibrary => "open_library",
            MetadataSource::GoogleBooks => "google_books",
            MetadataSource::Manual => "manual",
        }
    }
}

/// Normalises an ISBN-10 or ISBN-13, with or without hyphens, to its ISBN-13.
pub fn normalize(code: &str) -> (r: Result<NormalizedIsbn, IsbnError>)
    ensures
        match (r, normalized(code@)) {
            (Ok(n), Ok((isbn_13, isbn_10))) => n.isbn_13@ == isbn_13 && n.isbn_10.deep_view()
                == isbn_10,
            (Err(e), Err(f)) => e == f,
            _ => false,
        },
{
    let chars = chars_of(code);
    let mut digits: Vec<char> = Vec::new();
    let mut check_x = false;
    let mut i: usize = 0;
    while i < chars.len()
        invariant
            i <= chars.len(),
            chars@ == code@,
            digits@ == ascii_digits_of(chars@.take(i as int)),
            check_x == trailing_x(chars@.take(i as int)),
        decreases chars.len() - i,
    {
        assert(chars@.take(i + 1).drop_last() =~= chars@.take(i as int));
        if '0' <= chars[i] && chars[i] <= '9' {
            digits.push(chars[i]);
            check_x = false;
        } else if chars[i] == 'X' || chars[i] == 'x' {
            check_x = true;
        }
        i += 1;
    }
    assert(chars@.take(chars.len() as int) =~= chars@);
    if digits.len() == 9 && check_x {
        let ghost nine = digits@;
        digits.push('X');
        let isbn_10 = string_of(digits.as_slice());
        proof {
            assert forall|j: int| 0 <= j < 9 implies is_ascii_digit(#[trigger] digits@.take(9)[j]) by {
                assert(digits@.take(9)[j] == nine[j]);
                lemma_ascii_digits_are_digits(code@, j);
            }
            assert(digits@ == nine.push('X'));
        }
        match isbn10_to_13(isbn_10.as_str()) {
            Ok(isbn_13) => Ok(NormalizedIsbn { isbn_13, isbn_10: Some(isbn_10) }),
            Err(e) => Err(e),
        }
    } else if digits.len() == 10 {
        let isbn_10 = string_of(digits.as_slice());
        proof {
            assert forall|j: int| 0 <= j < digits@.len() implies is_ascii_digit(
                #[trigger] digits@[j],
            ) by {
                lemma_ascii_digits_are_digits(code@, j);
            }
        }
        proof {
            assert forall|j: int| 0 <= j < 9 implies is_ascii_digit(#[trigger] digits@.take(9)[j]) by {
                assert(digits@.take(9)[j] == digits@[j]);
            }
        }
        match isbn10_to_13(isbn_10.as_str()) {
            Ok(isbn_13) => Ok(NormalizedIsbn { isbn_13, isbn_10: Some(isbn_10) }),
            Err(e) => Err(e),
        }
    } else if digits.len() == 13 {
        let isbn = string_of(digits.as_slice());
        proof {
            assert forall|j: int| 0 <= j < digits@.len() implies is_ascii_digit(
                #[trigger] digits@[j],
            ) by {
                lemma_ascii_digits_are_digits(code@, j);
            }
        }
        if !is_valid_isbn13(isbn.as_str()) {
            return Err(IsbnError::InvalidIsbn13);
        }
        Ok(NormalizedIsbn { isbn_13: isbn, isbn_10: None })
    } else {
        Err(IsbnError::WrongDigitCount)
    }
}

pub proof fn lemma_ascii_digits_are_digits(s: Seq<char>, j: int)
    requires
        0 <= j < ascii_digits_of(s).len(),
    ensures
        is_ascii_digit(ascii_digits_of(s)[j]),
    decreases s.len(),
{
    if s.len() > 0 {
        if is_ascii_digit(s.last()) && j == ascii_digits_of(s).len() - 1 {
        } else {
            lemma_ascii_digits_are_digits(s.drop_last(), j);
        }
    }
}

fn isbn10_to_13(isbn_10: &str) -> (r: Result<String, IsbnError>)
    requires
        isbn_10@.len() >= 9 ==> all_digits(isbn_10@.take(9)),
    ensures
        isbn_10@.len() == 10 ==> (r matches Ok(s) && s@ == isbn13_from_isbn10(isbn_10@)),
        isbn_10@.len() != 10 ==> r == Err::<String, IsbnError>(IsbnError::NotTenDigits),
{
    let chars = chars_of(isbn_10);
    if chars.len() != 10 {
        return Err(IsbnError::NotTenDigits);
    }
    let mut prefix: Vec<char> = Vec::new();
    prefix.push('9');
    prefix.push('7');
    prefix.push('8');
    let mut i: usize = 0;
    while i < 9
        invariant
            i <= 9,
            chars@ == isbn_10@,
            chars@.len() == 10,
            prefix@ == seq!['9', '7', '8'] + chars@.take(i as int),
        decreases 9 - i,
    {
        prefix.push(chars[i]);
        assert(chars@.take(i + 1) =~= chars@.take(i as int).push(chars@[i as int]));
        i += 1;
    }
    proof {
        assert forall|j: int| 0 <= j < prefix@.len() implies is_ascii_digit(#[trigger] prefix@[j]) by {
            if j >= 3 {
                assert(prefix@[j] == chars@.take(9)[j - 3]);
            }
        }
    }
    let check = compute_isbn13_check_digit(prefix.as_slice());
    prefix.push(ascii_digit(check as u64));
    Ok(string_of(prefix.as_slice()))
}

fn compute_isbn13_check_digit(bytes: &[char]) -> (check: u32)
    requires
        all_digits(bytes@),
        bytes@.len() <= u32::MAX,
    ensures
        check == isbn13_check_digit(bytes@),
        check < 10,
{
    let mut sum: u64 = 0;
    let mut idx: usize = 0;
    while idx < bytes.len()
        invariant
            idx <= bytes@.len() <= u32::MAX,
            all_digits(bytes@),
            sum == isbn13_weighted_sum(bytes@.take(idx as int)),
            sum <= 27 * idx,
        decreases bytes.len() - idx,
    {
        assert(bytes@.take(idx + 1).drop_last() =~= bytes@.take(idx as int));
        assert(is_ascii_digit(bytes@[idx as int]));
        let digit = (bytes[idx] as u32 - '0' as u32) as u64;
        if idx % 2 == 0 {
            sum += digit;
        } else {
            sum += digit * 3;
        }
        idx += 1;
    }
    assert(bytes@.take(bytes.len() as int) =~= bytes@);
    let rem = sum % 10;
    if rem == 0 {
        0
    } else {
        (10 - rem) as u32
    }
}

/// Whether `isbn` is thirteen ASCII digits with a matching check digit.
pub fn is_valid_isbn13(isbn: &str) -> (b: bool)
    ensures
        b == valid_isbn13(isbn@),
{
    let chars = chars_of(isbn);
    if chars.len() != 13 {
        return false;
    }
    let mut i: usize = 0;
    while i < 13
        invariant
            i <= 13,
            chars@ == isbn@,
            chars@.len() == 13,
            forall|j: int| 0 <= j < i ==> is_ascii_digit(#[trigger] chars@[j]),
        decreases 13 - i,
    {
        if !('0' <= chars[i] && chars[i] <= '9') {
            return false;
        }
        i += 1;
    }
    let first12 = chars_slice_prefix(&chars, 12);
    let check = compute_isbn13_check_digit(first12.as_slice());
    let last = chars[12] as u32 - '0' as u32;
    check == last
}

fn chars_slice_prefix(chars: &Vec<char>, n: usize) -> (p: Vec<char>)
    requires
        n <= chars@.len(),
    ensures
        p@ == chars@.take(n as int),
{
    let mut p: Vec<char> = Vec::new();
    let mut i: usize = 0;
    while i < n
        invariant
            i <= n <= chars@.len(),
            p@ == chars@.take(i as int),
        decreases n - i,
    {
        p.push(chars[i]);
        assert(chars@.take(i + 1) =~= chars@.take(i as int).push(chars@[i as int]));
        i += 1;
    }
    p
}


/// The fields of one volume in a Google Books search result.
#[derive(Debug, Clone)]
pub struct GoogleVolume {
    pub title: Option<String>,
    pub subtitle: Option<String>,
    pub authors: Option<Vec<String>>,
}

/// Open Library's record URL for an ISBN-13.
pub fn open_library_url(isbn_13: &str) -> (u: String)
    ensures
        u@ == "https://openlibrary.org/isbn/"@ + isbn_13@ + ".json"@,
{
    let mut u = String::from_str("https://openlibrary.org/isbn/");
    u.append(isbn_13);
    u.append(".json");
    u
}

/// Google Books' search URL for an ISBN-13.
pub fn google_books_url(isbn_13: &str) -> (u: String)
    ensures
        u@ == "https://www.googleapis.com/books/v1/volumes?q=isbn:"@ + isbn_13@,
{
    let mut u = String::from_str("https://www.googleapis.com/books/v1/volumes?q=isbn:");
    u.append(isbn_13);
    u
}

fn copy_opt(o: &Option<String>) -> (r: Option<String>)
    ensures
        r == *o,
{
    match o {
        Some(s) => Some(s.clone()),
        None => None,
    }
}

/// The metadata an Open Library record gives, if it has a title; authors
/// without a name are left out.
pub fn metadata_from_open_library(
    normalized: &NormalizedIsbn,
    title: Option<String>,
    subtitle: Option<String>,
    author_names: Vec<Option<String>>,
) -> (m: Option<IsbnMetadata>)
    ensures
        m is Some <==> title is Some,
        m matches Some(m) ==> {
            &&& m.isbn_13 == normalized.isbn_13
            &&& m.isbn_10 == normalized.isbn_10
            &&& m.title == title->Some_0
            &&& m.subtitle == subtitle
            &&& m.authors@ == present_names(author_names@)
            &&& m.source == MetadataSource::OpenLibrary
        },
{
    match title {
        Some(title) => {
            let mut authors: Vec<String> = Vec::new();
            let mut i: usize = 0;
            while i < author_names.len()
                invariant
                    i <= author_names@.len(),
                    authors@ == present_names(author_names@.take(i as int)),
                decreases author_names.len() - i,
            {
                assert(author_names@.take(i + 1).drop_last() =~= author_names@.take(i as int));
                match &author_names[i] {
                    Some(name) => authors.push(name.clone()),
                    None => {},
                }
                i += 1;
            }
            assert(author_names@.take(author_names@.len() as int) =~= author_names@);
            Some(
                IsbnMetadata {
                    isbn_13: normalized.isbn_13.clone(),
                    isbn_10: copy_opt(&normalized.isbn_10),
                    title,
                    subtitle,
                    authors,
                    source: MetadataSource::OpenLibrary,
                },
            )
        },
        None => None,
    }
}

/// The metadata the first Google Books volume gives, if there is one and it
/// has a title.
pub fn metadata_from_google_books(normalized: &NormalizedIsbn, items: Vec<GoogleVolume>) -> (m:
    Option<IsbnMetadata>)
    ensures
        m is Some <==> (items@.len() > 0 && items@[0].title is Some),
        m matches Some(m) ==> {
            &&& m.isbn_13 == normalized.isbn_13
            &&& m.isbn_10 == normalized.isbn_10
            &&& m.title == items@[0].title->Some_0
            &&& m.subtitle == items@[0].subtitle
            &&& m.authors@ == (match items@[0].authors {
                Some(a) => a@,
                None => Seq::empty(),
            })
            &&& m.source == MetadataSource::GoogleBooks
        },
{
    let mut items = items;
    if items.len() == 0 {
        return None;
    }
    let first = items.swap_remove(0);
    match first.title {
        Some(title) => {
            let authors = match first.authors {
                Some(a) => a,
                None => Vec::new(),
            };
            Some(
                IsbnMetadata {
                    isbn_13: normalized.isbn_13.clone(),
                    isbn_10: copy_opt(&normalized.isbn_10),
                    title,
                    subtitle: first.subtitle,
                    authors,
                    source: MetadataSource::GoogleBooks,
                },
            )
        },
        None => None,
    }
}

/// The record used when no catalogue knows the ISBN: the title given by hand,
/// or the error that no metadata could be resolved.
pub fn manual_metadata(normalized: &NormalizedIsbn, title_override: Option<&str>) -> (r: Result<
    IsbnMetadata,
    LookupError,
>)
    ensures
        r is Ok <==> title_override is Some,
        r matches Ok(m) ==> {
            &&& m.isbn_13 == normalized.isbn_13
            &&& m.isbn_10 == normalized.isbn_10
            &&& m.title@ == title_override->Some_0@
            &&& m.subtitle is None
            &&& m.authors@.len() == 0
            &&& m.source == MetadataSource::Manual
        },
        r matches Err(LookupError::Unresolved { isbn_13 }) ==> isbn_13 == normalized.isbn_13,
{
    match title_override {
        Some(title) => Ok(
            IsbnMetadata {
                isbn_13: normalized.isbn_13.clone(),
                isbn_10: copy_opt(&normalized.isbn_10),
                title: String::from_str(title),
                subtitle: None,
                authors: Vec::new(),
                source: MetadataSource::Manual,
            },
        ),
        None => Err(LookupError::Unresolved { isbn_13: normalized.isbn_13.clone() }),
    }
}

/// The next step of a metadata lookup: catalogues are asked in turn, Google
/// Books first, then Open Library, and the title given by hand comes last.
#[derive(Debug, Clone)]
pub enum LookupStep {
    /// Ask Google Books for the ISBN.
    AskGoogleBooks,
    /// Google Books knows nothing of it: ask Open Library.
    AskOpenLibrary,
    /// The lookup ends with this record.
    Found(IsbnMetadata),
    /// No catalogue knows the ISBN and no title was given.
    Failed(LookupError),
}

/// The record made from a title given by hand.
pub open spec fn manual_record(m: IsbnMetadata, normalized: NormalizedIsbn, title: Seq<char>) -> bool {
    &&& m.isbn_13 == normalized.isbn_13
    &&& m.isbn_10 == normalized.isbn_10
    &&& m.title@ == title
    &&& m.subtitle is None
    &&& m.authors@.len() == 0
    &&& m.source == MetadataSource::Manual
}

/// Decides the next step of a lookup from what each catalogue has answered so
/// far: `None` while it has not been asked, `Some(None)` when it knew nothing.
pub fn next_lookup_step(
    normalized: &NormalizedIsbn,
    google_books: Option<Option<IsbnMetadata>>,
    open_library: Option<Option<IsbnMetadata>>,
    title_override: Option<&str>,
) -> (s: LookupStep)
    ensures
        google_books is None ==> s == LookupStep::AskGoogleBooks,
        google_books matches Some(Some(m)) ==> s == LookupStep::Found(m),
        google_books == Some(None::<IsbnMetadata>) ==> match open_library {
            None => s == LookupStep::AskOpenLibrary,
            Some(Some(m)) => s == LookupStep::Found(m),
            Some(None) => match title_override {
                Some(t) => s matches LookupStep::Found(m) && manual_record(m, *normalized, t@),
                None => s == LookupStep::Failed(
                    LookupError::Unresolved { isbn_13: normalized.isbn_13 },
                ),
            },
        },
{
    match google_books {
        None => LookupStep::AskGoogleBooks,
        Some(Some(m)) => LookupStep::Found(m),
        Some(None) => match open_library {
            None => LookupStep::AskOpenLibrary,
            Some(Some(m)) => LookupStep::Found(m),
            Some(None) => match manual_metadata(normalized, title_override) {
                Ok(m) => LookupStep::Found(m),
                Err(e) => LookupStep::Failed(e),
            },
        },
    }
}

pub proof fn lemma_ascii_digits_of_digits(s: Seq<char>)
    requires
        all_digits(s),
    ensures
        ascii_digits_of(s) == s,
    decreases s.len(),
{
    if s.len() > 0 {
        assert(is_ascii_digit(s[s.len() - 1]));
        lemma_ascii_digits_of_digits(s.drop_last());
        assert(s.drop_last().push(s.last()) =~= s);
    }
}

pub proof fn lemma_check_digit_range(s: Seq<char>)
    ensures
        0 <= isbn13_check_digit(s) < 10,
{
}

/// Whatever `normalize` accepts comes out as a valid ISBN-13: thirteen digits
/// whose last one is the check digit of the first twelve.
pub proof fn law_normalized_isbn13_is_valid(code: Seq<char>)
    requires
        normalized(code) is Ok,
    ensures
        valid_isbn13(normalized(code)->Ok_0.0),
{
    let d0 = ascii_digits_of(code);
    if d0.len() == 9 && trailing_x(code) || d0.len() == 10 {
        let d = if d0.len() == 9 {
            d0.push('X')
        } else {
            d0
        };
        assert(d.take(9) =~= d0.take(9));
        let prefix = seq!['9', '7', '8'] + d.take(9);
        let c = isbn13_check_digit(prefix);
        lemma_check_digit_range(prefix);
        lemma_digit_char_value(c as nat);
        let r = isbn13_from_isbn10(d);
        assert(r.take(12) =~= prefix);
        assert forall|j: int| 0 <= j < r.len() implies is_ascii_digit(#[trigger] r[j]) by {
            if 3 <= j < 12 {
                lemma_ascii_digits_are_digits(code, j - 3);
            }
        }
    }
}

/// A valid ISBN-13 is kept as it is, whatever its prefix (`978` or `979`):
/// a code whose ASCII digits are thirteen digits ending on the check digit
/// of the first twelve normalises to those digits, with no ISBN-10; thirteen
/// digits with a wrong check digit are refused as an invalid ISBN-13.
pub proof fn law_valid_isbn13_kept(code: Seq<char>)
    ensures
        valid_isbn13(ascii_digits_of(code)) ==> normalized(code) == Ok::<
            (Seq<char>, Option<Seq<char>>),
            IsbnError,
        >((ascii_digits_of(code), None)),
        ascii_digits_of(code).len() == 13 && !valid_isbn13(ascii_digits_of(code)) ==> normalized(code)
            == Err::<(Seq<char>, Option<Seq<char>>), IsbnError>(IsbnError::InvalidIsbn13),
{
}

/// Normalising is idempotent: the ISBN-13 that `normalize` returns normalises
/// to itself (with no ISBN-10 attached).
pub proof fn law_normalize_idempotent(code: Seq<char>)
    requires
        normalized(code) is Ok,
    ensures
        normalized(normalized(code)->Ok_0.0) == Ok::<(Seq<char>, Option<Seq<char>>), IsbnError>(
            (normalized(code)->Ok_0.0, None),
        ),
{
    let i = normalized(code)->Ok_0.0;
    law_normalized_isbn13_is_valid(code);
    lemma_ascii_digits_of_digits(i);
}

/// Hyphens, spaces and every other separator are ignored: two codes with
/// the same digits, and alike in ending on a check character `X` or not,
/// normalise alike.
pub proof fn law_normalize_ignores_separators(a: Seq<char>, b: Seq<char>)
    requires
        ascii_digits_of(a) == ascii_digits_of(b),
        trailing_x(a) == trailing_x(b),
    ensures
        normalized(a) == normalized(b),
{
}

} // verus!
