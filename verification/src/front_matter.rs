//! The metadata block that precedes a document's body, and the verified
//! splitting of a source file into that block and the body.
//!
//! Deserializing the block's TOML is an outside concern; this module owns the
//! data model and the textual framing.

use vstd::prelude::*;

verus! {

use vstd::string::StrSliceExecFns;
use crate::error::TechouError;
use crate::strings::{match_at, find_sub};
use crate::config::Config;

/// A calendar date and time of day, held as plain numbers.
#[derive(Debug, Clone, Copy, PartialEq, Eq, Structural)]
pub struct DateInfo {
    pub year: i32,
    pub month: u32,
    pub day: u32,
    pub hour: u32,
    pub minute: u32,
    pub second: u32,
}

impl Default for DateInfo {
    fn default() -> (r: Self)
        ensures
            r.year == 0 && r.month == 0 && r.day == 0,
            r.hour == 0 && r.minute == 0 && r.second == 0,
    {
        DateInfo { year: 0, month: 0, day: 0, hour: 0, minute: 0, second: 0 }
    }
}

/// The spec-level value of a front matter record: every text field as a
/// character sequence.
pub struct FrontMatterS {
    pub title: Seq<char>,
    pub tags: Seq<Seq<char>>,
    pub keywords: Seq<Seq<char>>,
    pub created: Seq<char>,
    pub description: Seq<char>,
    pub description_html: Seq<char>,
    pub published: bool,
    pub slug: Option<Seq<char>>,
    pub meta: Seq<(Seq<char>, Seq<char>)>,
    pub created_timestamp: i64,
    pub date_info: DateInfo,
    pub identifier: Seq<char>,
}

/// The metadata of one document.
#[derive(Debug)]
pub struct FrontMatter {
    pub title: String,
    pub tags: Vec<String>,
    pub keywords: Vec<String>,
    pub created: String,
    pub description: String,
    pub description_html: String,
    pub published: bool,
    /// When set, used as the document's slug instead of a generated one.
    pub slug: Option<String>,
    /// Free-form metadata pairs handed through to templates.
    pub meta: Vec<(String, String)>,
    pub created_timestamp: i64,
    pub date_info: DateInfo,
    /// A stable identifier derived from the title.
    pub identifier: String,
}

impl DeepView for FrontMatter {
    type V = FrontMatterS;

    open spec fn deep_view(&self) -> FrontMatterS {
        FrontMatterS {
            title: self.title@,
            tags: self.tags.deep_view(),
            keywords: self.keywords.deep_view(),
            created: self.created@,
            description: self.description@,
            description_html: self.description_html@,
            published: self.published,
            slug: self.slug.deep_view(),
            meta: self.meta.deep_view(),
            created_timestamp: self.created_timestamp,
            date_info: self.date_info,
            identifier: self.identifier@,
        }
    }
}

/// What `DateTime::to_rfc2822` prints for the given field values, read as a
/// UTC date; a function of the fields alone.
pub uninterp spec fn rfc2822_of(
    year: int,
    month: int,
    day: int,
    hour: int,
    minute: int,
    second: int,
) -> Seq<char>;

/// The year is a leap year of the proleptic Gregorian calendar.
pub open spec fn is_leap_year(year: int) -> bool {
    year % 4 == 0 && (year % 100 != 0 || year % 400 == 0)
}

/// How many days the month holds.
pub open spec fn days_in_month(year: int, month: int) -> int {
    if month == 2 {
        if is_leap_year(year) {
            29int
        } else {
            28int
        }
    } else if month == 4 || month == 6 || month == 9 || month == 11 {
        30int
    } else {
        31int
    }
}

/// The field values name a calendar date and a time of day.
pub open spec fn is_civil_datetime(
    year: int,
    month: int,
    day: int,
    hour: int,
    minute: int,
    second: int,
) -> bool {
    &&& 1 <= month <= 12
    &&& 1 <= day <= days_in_month(year, month)
    &&& 0 <= hour < 24
    &&& 0 <= minute < 60
    &&& 0 <= second < 60
}

/// Relies on chrono's NaiveDate and DateTime: formats the given UTC instant
/// per RFC 2822. chrono's formatter rejects years outside this range with a
/// panic, so the range is required here. Field values that name no calendar
/// date or time of day give the empty string; real instants format nonempty.
#[verifier::external_body]
fn rfc2822_from_parts(year: i32, month: u32, day: u32, hour: u32, minute: u32, second: u32) -> (r:
    String)
    requires
        0 <= year <= 9999,
    ensures
        r@ == rfc2822_of(year as int, month as int, day as int, hour as int, minute as int,
            second as int),
        is_civil_datetime(year as int, month as int, day as int, hour as int, minute as int,
            second as int) ==> r@.len() > 0,
        !is_civil_datetime(year as int, month as int, day as int, hour as int, minute as int,
            second as int) ==> r@.len() == 0,
{
    let stamp = chrono::NaiveDate::from_ymd_opt(year, month, day).and_then(
        |d| d.and_hms_opt(hour, minute, second),
    );
    match stamp {
        Some(naive) => {
            let utc = chrono::DateTime::<chrono::Utc>::from_naive_utc_and_offset(naive, chrono::Utc);
            utc.to_rfc2822()
        },
        None => String::new(),
    }
}

impl FrontMatter {
    /// The document's creation instant formatted per RFC 2822, for feeds.
    /// Nonempty exactly when the fields name a real instant the format can
    /// carry; a year outside the format's range gives the empty string.
    pub fn rfc2822(&self) -> (r: String)
        ensures
            ({
                let d = self.date_info;
                if 0 <= d.year <= 9999 {
                    &&& r@ == rfc2822_of(d.year as int, d.month as int, d.day as int,
                        d.hour as int, d.minute as int, d.second as int)
                    &&& r@.len() > 0 <==> is_civil_datetime(d.year as int, d.month as int,
                        d.day as int, d.hour as int, d.minute as int, d.second as int)
                } else {
                    r@.len() == 0
                }
            }),
    {
        let d = self.date_info;
        if 0 <= d.year && d.year <= 9999 {
            rfc2822_from_parts(d.year, d.month, d.day, d.hour, d.minute, d.second)
        } else {
            String::new()
        }
    }

    /// A value equal to this one in every field.
    pub fn duplicate(&self) -> (r: FrontMatter)
        ensures
            r.deep_view() == self.deep_view(),
    {
        let r = FrontMatter {
            title: self.title.clone(),
            tags: crate::strings::clone_string_vec(&self.tags),
            keywords: crate::strings::clone_string_vec(&self.keywords),
            created: self.created.clone(),
            description: self.description.clone(),
            description_html: self.description_html.clone(),
            published: self.published,
            slug: match &self.slug {
                Some(s) => Some(s.clone()),
                None => None,
            },
            meta: crate::strings::clone_pair_vec(&self.meta),
            created_timestamp: self.created_timestamp,
            date_info: self.date_info,
            identifier: self.identifier.clone(),
        };
        assert(r.tags.deep_view() =~= self.tags.deep_view());
        assert(r.keywords.deep_view() =~= self.keywords.deep_view());
        assert(r.meta.deep_view() =~= self.meta.deep_view());
        assert(r.deep_view() =~= self.deep_view());
        r
    }
}

/// The separator line between front matter and body.
pub open spec fn fm_separator() -> Seq<char> {
    seq!['\n', '-', '-', '-', '\n']
}

/// The default front matter block written for a freshly scaffolded document.
pub open spec fn default_front_matter_spec(title: Seq<char>, date: Seq<char>) -> Seq<char> {
    "[frontMatter]\ntitle = \""@ + title + "\"\ntags = []\ncreated = \""@ + date
        + "\"\ndescription = \"\"\npublished = false\n"@
}

pub fn default_front_matter(title: &str, date: &str) -> (r: String)
    ensures
        r@ == default_front_matter_spec(title@, date@),
{
    let mut out = String::from_str("[frontMatter]\ntitle = \"");
    out.append(title);
    out.append("\"\ntags = []\ncreated = \"");
    out.append(date);
    out.append("\"\ndescription = \"\"\npublished = false\n");
    assert(out@ =~= default_front_matter_spec(title@, date@));
    out
}

/// A front matter block and a body joined into one source document.
pub fn join_front_matter_with_content(front_matter: &str, content: &str) -> (r: String)
    ensures
        r@ == front_matter@ + fm_separator() + content@,
{
    let mut out = front_matter.to_owned();
    out.append("\n---\n");
    out.append(content);
    proof {
        reveal_strlit("\n---\n");
        assert("\n---\n"@ =~= fm_separator());
    }
    assert(out@ =~= front_matter@ + fm_separator() + content@);
    out
}

/// Split a source document at the first front matter separator. The first
/// part is everything before the separator, the second everything after it.
/// A document without a separator is rejected.
pub fn detect_front_matter(input: &str, filename: &str, _config: &Config) -> (r: Result<
    (String, String),
    TechouError,
>)
    ensures
        match r {
            Ok(parts) => {
                &&& match_at(input@, fm_separator(), parts.0@.len() as int)
                &&& forall|j: int| 0 <= j < parts.0@.len() ==> !match_at(input@, fm_separator(), j)
                &&& parts.0@ == input@.subrange(0, parts.0@.len() as int)
                &&& parts.1@ == input@.subrange(parts.0@.len() as int + 5, input@.len() as int)
            },
            Err(e) => (forall|j: int| !match_at(input@, fm_separator(), j)) && e is FrontMatter,
        },
{
    proof {
        reveal_strlit("\n---\n");
        assert("\n---\n"@ =~= fm_separator());
    }
    match find_sub(input, "\n---\n") {
        Some(i) => {
            let n: usize = input.unicode_len();
            let front = input.substring_char(0, i).to_owned();
            let body = input.substring_char(i + 5, n).to_owned();
            Ok((front, body))
        },
        None => {
            let mut issue = filename.to_owned();
            issue.append(": Missing Front Matter");
            Err(TechouError::FrontMatter { issue })
        },
    }
}

} // verus!
