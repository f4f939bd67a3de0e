//! The metadata header of a post: the record it decodes to, and the parser
//! that splits a raw file into header text and markdown body.
//!
//! A post file opens with the three-character delimiter `+++`; the header is
//! the text between the first and the second occurrence of the delimiter and
//! the body is everything after the second occurrence.  The split is
//! positional: only the first two occurrences count, so a body that itself
//! contains the delimiter as plain text is kept whole.
use vstd::prelude::*;

use crate::trusted;

verus! {

/// An instant, as Unix seconds paired with subsecond nanoseconds.  Posts are
/// ordered by this value, lexicographically.
#[derive(Clone, Copy, Debug, PartialEq, Eq, Structural)]
pub struct Timestamp {
    pub secs: i64,
    pub nanos: u32,
}

/// `a` is at or before `b`.
pub open spec fn ts_le(a: Timestamp, b: Timestamp) -> bool {
    a.secs < b.secs || (a.secs == b.secs && a.nanos <= b.nanos)
}

/// `a` is strictly before `b`.
pub open spec fn ts_lt(a: Timestamp, b: Timestamp) -> bool {
    a.secs < b.secs || (a.secs == b.secs && a.nanos < b.nanos)
}

impl Timestamp {
    /// Tests whether `self` is strictly before `other`.
    pub fn is_before(&self, other: &Timestamp) -> (r: bool)
        ensures
            r == ts_lt(*self, *other),
    {
        self.secs < other.secs || (self.secs == other.secs && self.nanos < other.nanos)
    }
}

/// The mathematical shape of a decoded header.
pub ghost struct FrontMatterView {
    pub id: u128,
    pub date: Timestamp,
    pub draft: Option<bool>,
    pub title: Seq<char>,
    pub description: Seq<char>,
}

/// A post's metadata: identity, authoring instant, publication flag, title
/// (which doubles as the file's logical name) and summary.
#[derive(Clone, Debug)]
pub struct FrontMatter {
    pub id: u128,
    pub date: Timestamp,
    pub draft: Option<bool>,
    pub title: String,
    pub description: String,
}

impl View for FrontMatter {
    type V = FrontMatterView;

    open spec fn view(&self) -> FrontMatterView {
        FrontMatterView {
            id: self.id,
            date: self.date,
            draft: self.draft,
            title: self.title@,
            description: self.description@,
        }
    }
}

/// Why a raw file failed to yield a metadata record.
#[derive(Debug)]
pub enum FrontmatterError {
    /// The file does not open with the header delimiter.
    MissingHeader,
    /// The header text is present but does not decode to the required shape;
    /// the payload is the human-readable reason.
    HeaderDecode(String),
}

// ---------------------------------------------------------------------------
// The positional split
// ---------------------------------------------------------------------------
/// The three-character sequence that opens and closes the header.
pub open spec fn delim() -> Seq<char> {
    seq!['+', '+', '+']
}

/// The delimiter occurs in `s` at position `i`.
pub open spec fn delim_at(s: Seq<char>, i: int) -> bool {
    0 <= i && i + 3 <= s.len() && s.subrange(i, i + 3) == delim()
}

/// `s` opens with the delimiter.
pub open spec fn has_leading_delim(s: Seq<char>) -> bool {
    delim_at(s, 0)
}

/// `j` is the position of the second delimiter occurrence: the first one at
/// or after the end of the leading delimiter.
pub open spec fn is_second_delim(s: Seq<char>, j: int) -> bool {
    &&& delim_at(s, j)
    &&& j >= 3
    &&& forall|k: int| 3 <= k < j ==> !delim_at(s, k)
}

/// A second delimiter occurrence exists.
pub open spec fn has_second_delim(s: Seq<char>) -> bool {
    exists|j: int| is_second_delim(s, j)
}

/// Where a file splits into header text and body text: `None` when the
/// leading delimiter is missing.  With no second delimiter occurrence the
/// header runs to the end of the file and the body is empty; with one, the
/// body is everything after it, delimiter occurrences inside it included.
pub open spec fn split_spec(s: Seq<char>) -> Option<(Seq<char>, Seq<char>)> {
    if !has_leading_delim(s) {
        None
    } else if has_second_delim(s) {
        let j = choose|j: int| is_second_delim(s, j);
        Some((s.subrange(3, j), s.subrange(j + 3, s.len() as int)))
    } else {
        Some((s.subrange(3, s.len() as int), Seq::empty()))
    }
}

/// The second delimiter position is unique.
pub proof fn lemma_second_delim_unique(s: Seq<char>, j1: int, j2: int)
    requires
        is_second_delim(s, j1),
        is_second_delim(s, j2),
    ensures
        j1 == j2,
{
    if j1 < j2 {
        assert(!delim_at(s, j1));
    } else if j2 < j1 {
        assert(!delim_at(s, j2));
    }
}

/// Tests whether the delimiter occurs at character position `i`.
fn delim_at_exec(s: &str, i: usize) -> (r: bool)
    requires
        i + 3 <= s@.len(),
        i + 3 <= usize::MAX,
    ensures
        r == delim_at(s@, i as int),
{
    let c0 = s.get_char(i);
    let c1 = s.get_char(i + 1);
    let c2 = s.get_char(i + 2);
    let r = c0 == '+' && c1 == '+' && c2 == '+';
    proof {
        let w = s@.subrange(i as int, i + 3);
        assert(w[0] == s@[i as int] && w[1] == s@[i + 1] && w[2] == s@[i + 2]);
        if r {
            assert(w =~= delim());
        } else {
            assert(delim()[0] == '+' && delim()[1] == '+' && delim()[2] == '+');
        }
    }
    r
}

/// Splits a raw file at the first two delimiter occurrences into header text
/// and body text, or reports the missing leading delimiter.
pub fn split_frontmatter(s: &str) -> (r: Result<(String, String), FrontmatterError>)
    ensures
        match split_spec(s@) {
            Some((h, b)) => r matches Ok(p) && p.0@ == h && p.1@ == b,
            None => r matches Err(FrontmatterError::MissingHeader),
        },
{
    let n = s.unicode_len();
    if n < 3 || !delim_at_exec(s, 0) {
        proof {
            assert(!has_leading_delim(s@));
        }
        return Err(FrontmatterError::MissingHeader);
    }
    let mut j: usize = 3;
    while j <= n - 3
        invariant
            3 <= j,
            j <= n,
            n == s@.len(),
            has_leading_delim(s@),
            forall|k: int| 3 <= k < j ==> !delim_at(s@, k),
        decreases n - j,
    {
        if delim_at_exec(s, j) {
            let header = s.substring_char(3, j).to_owned();
            let body = s.substring_char(j + 3, n).to_owned();
            proof {
                assert(is_second_delim(s@, j as int));
                let jj = choose|jj: int| is_second_delim(s@, jj);
                lemma_second_delim_unique(s@, jj, j as int);
            }
            return Ok((header, body));
        }
        j = j + 1;
    }
    proof {
        assert forall|k: int| 3 <= k implies !delim_at(s@, k) by {
            if k + 3 <= s@.len() {
                assert(!delim_at(s@, k));
            }
        }
        assert(!has_second_delim(s@));
    }
    let header = s.substring_char(3, n).to_owned();
    let body = String::new();
    proof {
        assert(body@ =~= Seq::<char>::empty());
    }
    Ok((header, body))
}

/// A character a post's logical name may hold: the allow-list that keeps a
/// caller-supplied name from reaching into the filesystem.
pub open spec fn allowed_name_char(c: char) -> bool {
    ('a' <= c && c <= 'z') || ('A' <= c && c <= 'Z') || ('0' <= c && c <= '9') || c == '_' || c
        == '-'
}

/// A post name is usable as a file lookup key: non-empty, and alphanumeric
/// with underscores and hyphens only.
pub open spec fn valid_post_name(s: Seq<char>) -> bool {
    s.len() > 0 && forall|i: int| 0 <= i < s.len() ==> allowed_name_char(#[trigger] s[i])
}

/// Tests whether a caller-supplied post name may be used to locate a file.
pub fn is_valid_post_name(s: &str) -> (r: bool)
    ensures
        r == valid_post_name(s@),
{
    let n = s.unicode_len();
    if n == 0 {
        return false;
    }
    let mut i: usize = 0;
    while i < n
        invariant
            i <= n,
            n == s@.len(),
            forall|k: int| 0 <= k < i ==> allowed_name_char(#[trigger] s@[k]),
        decreases n - i,
    {
        let c = s.get_char(i);
        let ok = ('a' <= c && c <= 'z') || ('A' <= c && c <= 'Z') || ('0' <= c && c <= '9') || c
            == '_' || c == '-';
        if !ok {
            return false;
        }
        i = i + 1;
    }
    true
}

/// Frames header text and body text as a post file: delimiter, header,
/// delimiter, body.
pub fn encode_post(header: &str, body: &str) -> (r: String)
    ensures
        r@ == delim() + header@ + delim() + body@,
{
    let mut out = "+++".to_owned();
    out.append(header);
    out.append("+++");
    out.append(body);
    proof {
        reveal_strlit("+++");
        assert("+++"@ =~= delim());
        assert(out@ =~= delim() + header@ + delim() + body@);
    }
    out
}

/// Round trip of the framing: a header without a delimiter occurrence and
/// not ending in `+`, framed with any body — delimiter occurrences in the
/// body included — splits back to exactly that header and that body.
pub proof fn lemma_split_round_trip(h: Seq<char>, b: Seq<char>)
    requires
        forall|k: int| !delim_at(h, k),
        h.len() == 0 || h[h.len() - 1] != '+',
    ensures
        split_spec(delim() + h + delim() + b) == Some((h, b)),
{
    let s = delim() + h + delim() + b;
    let l = h.len() as int;
    let j = 3 + l;
    assert(delim()[0] == '+' && delim()[1] == '+' && delim()[2] == '+');
    assert(s.subrange(0, 3) =~= delim());
    assert(has_leading_delim(s));
    assert(s.subrange(j, j + 3) =~= delim());
    assert(delim_at(s, j));
    assert forall|k: int| 3 <= k < j implies !delim_at(s, k) by {
        if delim_at(s, k) {
            let w = s.subrange(k, k + 3);
            assert(w[0] == '+' && w[1] == '+' && w[2] == '+');
            if k + 3 <= 3 + l {
                assert(h.subrange(k - 3, k) =~= w);
                assert(delim_at(h, k - 3));
            } else if k + 3 == 3 + l + 1 {
                assert(w[2] == s[k + 2]);
                assert(s[k + 2] == h[l - 1]);
            } else {
                assert(w[1] == s[k + 1] || w[0] == s[k]);
                assert(s[3 + l - 1] == h[l - 1]);
                assert(k + 1 == 3 + l - 1 || k == 3 + l - 1);
            }
        }
    }
    assert(is_second_delim(s, j));
    let jj = choose|jj: int| is_second_delim(s, jj);
    lemma_second_delim_unique(s, jj, j);
    assert(s.subrange(3, j) =~= h);
    assert(s.subrange(j + 3, s.len() as int) =~= b);
}

// ---------------------------------------------------------------------------
// Decoding the header text
// ---------------------------------------------------------------------------
/// The string under `key` in the decoded TOML value: `None` when the key is
/// absent or its value is not a string.
pub open spec fn field_str(v: toml::Value, key: Seq<char>) -> Option<Seq<char>> {
    match trusted::toml_index(v, key) {
        Some(f) => trusted::toml_str_of(f),
        None => None,
    }
}

/// What a header text decodes to: `None` when it is not a TOML document,
/// when a required field (`id`, `date`, `title`, `description`) is absent or
/// of the wrong type or shape, or when an optional `draft` field is present
/// but not a boolean.
pub open spec fn decode_header_spec(h: Seq<char>) -> Option<FrontMatterView> {
    match trusted::toml_parsed(h) {
        None => None,
        Some(v) => match field_str(v, "id"@) {
            None => None,
            Some(id_s) => match trusted::uuid_of(id_s) {
                None => None,
                Some(id) => match field_str(v, "date"@) {
                    None => None,
                    Some(date_s) => match trusted::rfc3339_of(date_s) {
                        None => None,
                        Some(d) => match field_str(v, "title"@) {
                            None => None,
                            Some(title) => match field_str(v, "description"@) {
                                None => None,
                                Some(description) => match trusted::toml_index(v, "draft"@) {
                                    None => Some(
                                        FrontMatterView {
                                            id,
                                            date: Timestamp { secs: d.0, nanos: d.1 },
                                            draft: None,
                                            title,
                                            description,
                                        },
                                    ),
                                    Some(dv) => match trusted::toml_bool_of(dv) {
                                        None => None,
                                        Some(b) => Some(
                                            FrontMatterView {
                                                id,
                                                date: Timestamp { secs: d.0, nanos: d.1 },
                                                draft: Some(b),
                                                title,
                                                description,
                                            },
                                        ),
                                    },
                                },
                            },
                        },
                    },
                },
            },
        },
    }
}

/// Looks a string field up in the decoded TOML value.
fn get_str_field(v: &toml::Value, key: &str) -> (r: Option<String>)
    ensures
        r matches Some(s) ==> field_str(*v, key@) == Some(s@),
        r is None ==> field_str(*v, key@) is None,
{
    match trusted::toml_get(v, key) {
        Some(f) => trusted::toml_as_str(&f),
        None => None,
    }
}

/// Decodes the header text into a metadata record; a failure carries the
/// reason.
pub fn decode_header(header: &str) -> (r: Result<FrontMatter, FrontmatterError>)
    ensures
        match decode_header_spec(header@) {
            Some(fm) => r matches Ok(p) && p@ == fm,
            None => r matches Err(e) && e is HeaderDecode,
        },
{
    let v = match trusted::toml_from_str(header) {
        Ok(v) => v,
        Err(e) => {
            return Err(FrontmatterError::HeaderDecode(trusted::toml_error_message(&e)));
        },
    };
    let id_s = match get_str_field(&v, "id") {
        Some(s) => s,
        None => {
            return Err(FrontmatterError::HeaderDecode("missing or non-string field: id".to_owned()));
        },
    };
    let id = match trusted::parse_uuid(id_s.as_str()) {
        Some(u) => u,
        None => {
            return Err(FrontmatterError::HeaderDecode("field id is not a valid UUID".to_owned()));
        },
    };
    let date_s = match get_str_field(&v, "date") {
        Some(s) => s,
        None => {
            return Err(
                FrontmatterError::HeaderDecode("missing or non-string field: date".to_owned()),
            );
        },
    };
    let date = match trusted::parse_rfc3339(date_s.as_str()) {
        Some(t) => t,
        None => {
            return Err(
                FrontmatterError::HeaderDecode("field date is not an RFC 3339 timestamp".to_owned()),
            );
        },
    };
    let title = match get_str_field(&v, "title") {
        Some(s) => s,
        None => {
            return Err(
                FrontmatterError::HeaderDecode("missing or non-string field: title".to_owned()),
            );
        },
    };
    let description = match get_str_field(&v, "description") {
        Some(s) => s,
        None => {
            return Err(
                FrontmatterError::HeaderDecode(
                    "missing or non-string field: description".to_owned(),
                ),
            );
        },
    };
    let draft = match trusted::toml_get(&v, "draft") {
        None => None,
        Some(dv) => match trusted::toml_as_bool(&dv) {
            Some(b) => Some(b),
            None => {
                return Err(
                    FrontmatterError::HeaderDecode("field draft is not a boolean".to_owned()),
                );
            },
        },
    };
    Ok(FrontMatter { id, date, draft, title, description })
}

// ---------------------------------------------------------------------------
// A whole file to a record
// ---------------------------------------------------------------------------
/// What a raw file parses to: `None` when the leading delimiter is missing
/// or the header text does not decode.
pub open spec fn from_source_spec(s: Seq<char>) -> Option<FrontMatterView> {
    match split_spec(s) {
        None => None,
        Some((h, b)) => decode_header_spec(h),
    }
}

impl FrontMatter {
    /// A brand-new draft: fresh identity, the clock's instant, hidden by
    /// default, empty summary.
    pub fn new(title: String) -> (r: Self)
        ensures
            r.draft == Some(true),
            r@.title == title@,
            r@.description == Seq::<char>::empty(),
    {
        let id = trusted::new_uuid_v4();
        let date = trusted::now_timestamp();
        let description = String::new();
        proof {
            assert(description@ =~= Seq::<char>::empty());
        }
        Self { id, date, draft: Some(true), title, description }
    }

    /// Parses a raw file into its metadata record.  The error is
    /// `MissingHeader` exactly when the file lacks the leading delimiter,
    /// and a decode failure otherwise.
    pub fn from_file(file: String) -> (r: Result<Self, FrontmatterError>)
        ensures
            match from_source_spec(file@) {
                Some(fm) => r matches Ok(p) && p@ == fm,
                None => r is Err,
            },
            r matches Err(FrontmatterError::MissingHeader) <==> !has_leading_delim(file@),
            r matches Err(e) && e is HeaderDecode <==> has_leading_delim(file@)
                && from_source_spec(file@) is None,
    {
        let (header, _body) = match split_frontmatter(file.as_str()) {
            Ok(p) => p,
            Err(e) => {
                return Err(e);
            },
        };
        decode_header(header.as_str())
    }
}

/// Splits a raw file and decodes its header, handing back the record beside
/// the body text.
pub fn deserialize_frontmatter(file_string: &str) -> (r: Result<
    (FrontMatter, String),
    FrontmatterError,
>)
    ensures
        match split_spec(file_string@) {
            None => r matches Err(FrontmatterError::MissingHeader),
            Some((h, b)) => match decode_header_spec(h) {
                Some(fm) => r matches Ok(p) && p.0@ == fm && p.1@ == b,
                None => r matches Err(e) && e is HeaderDecode,
            },
        },
{
    let (header, body) = match split_frontmatter(file_string) {
        Ok(p) => p,
        Err(e) => {
            return Err(e);
        },
    };
    let fm = match decode_header(header.as_str()) {
        Ok(fm) => fm,
        Err(e) => {
            return Err(e);
        },
    };
    Ok((fm, body))
}

} // verus!

