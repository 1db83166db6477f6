//! Post records: metadata parsing, validation, and derived fields.
//!
//! One post is read from one per-entry directory: the directory name is
//! the post's date-formatted index, and a metadata descriptor supplies
//! key/value fields (`title`, `date`, `transcript`, `good`, `notext`,
//! `version`, and `old`/`new` errata pairs; unknown keys are ignored).

use vstd::prelude::*;

use crate::date::Date;
use crate::date::SUNDAY;
use crate::date::date_of_text;
use crate::date::date_text;
use crate::date::day_of_week;
use crate::date::digit_val;
use crate::date::format_date;
use crate::date::is_digit;
use crate::date::parse_date;
use crate::date::valid_date_text;

verus! {

/// Why a corpus failed to load. Any failure aborts the whole load:
/// a malformed entry is a content bug to surface, not to skip.
#[derive(Clone, Debug, PartialEq, Eq)]
pub enum LoadError {
    /// A directory name, or a `date` field value, is not a real
    /// calendar date written exactly `YYYY-MM-DD`.
    MalformedIndex,
    /// A required metadata field (`title` or `date`) is absent
    /// (an empty `title` counts as absent).
    MissingField(String),
    /// An `old` erratum line is not followed by its `new` half.
    MalformedErrata,
    /// Two entries share one index; the offending index is carried.
    DuplicateIndex(String),
    /// An expected image file is absent from the entry's directory.
    MissingAsset,
    /// The corpus holds no entries at all.
    EmptyCorpus,
}

/// A recognized holiday tag, derived from a post's in-universe date.
#[derive(Clone, Copy, PartialEq, Eq, Structural, Debug)]
pub enum Special {
    Halloween,
    Christmas,
    NewYears,
}

/// Per-post flags: curator's favorite, dialogue-free, retranslated.
#[derive(Clone, Copy, PartialEq, Eq, Structural, Debug)]
pub struct Props {
    pub good: bool,
    pub notext: bool,
    pub revised: bool,
}

/// Ordered corrections: pairs of (incorrect text, corrected text).
#[derive(Clone, Debug, PartialEq, Eq)]
pub struct Errata(pub Vec<(String, String)>);

/// One translated strip, immutable once the corpus is built.
#[derive(Clone, Debug)]
pub struct Post {
    /// Unique date-formatted identifier: sort key, directory name and
    /// URL path segment. Its text form is `YYYY-MM-DD`.
    pub index: Date,
    /// Human-readable caption; always present and non-empty.
    pub title: String,
    /// In-universe original publication date (may differ from `index`).
    pub date: Date,
    /// Whether `date` falls on a Sunday (full-color feature strips).
    pub is_sunday: bool,
    /// Holiday tag when `date` falls in a recognized window.
    pub special: Option<Special>,
    /// Revision counter: `0` is the original, `n > 0` retranslated.
    pub version: u32,
    /// Whether the post predates the staleness threshold.
    pub is_old: bool,
    pub props: Props,
    pub errata: Errata,
    pub transcript: Option<String>,
}

/// Posts indexed before this date are marked old: a fixed changeover
/// in the translation pipeline, policy rather than per-post data.
pub const OLD_THRESHOLD_YEAR: u16 = 2023;

pub const OLD_THRESHOLD_MONTH: u8 = 1;

pub const OLD_THRESHOLD_DAY: u8 = 1;

pub open spec fn old_threshold() -> Date {
    Date { year: OLD_THRESHOLD_YEAR, month: OLD_THRESHOLD_MONTH, day: OLD_THRESHOLD_DAY }
}

/// October 30 through November 1: Halloween (October 31) plus one day
/// to either side.
pub open spec fn in_halloween_window(m: int, d: int) -> bool {
    (m == 10 && 30 <= d <= 31) || (m == 11 && d == 1)
}

/// December 24 through December 26: Christmas plus one day either side.
pub open spec fn in_christmas_window(m: int, d: int) -> bool {
    m == 12 && 24 <= d <= 26
}

/// December 31 through January 2: New Year's Day plus one day either side.
pub open spec fn in_new_years_window(m: int, d: int) -> bool {
    (m == 12 && d == 31) || (m == 1 && 1 <= d <= 2)
}

/// The holiday tag a month/day pair earns, if any. The windows do not
/// overlap, so the order of the tests does not matter.
pub open spec fn special_of(m: int, d: int) -> Option<Special> {
    if in_halloween_window(m, d) {
        Some(Special::Halloween)
    } else if in_christmas_window(m, d) {
        Some(Special::Christmas)
    } else if in_new_years_window(m, d) {
        Some(Special::NewYears)
    } else {
        None
    }
}

/// Holiday tag of a date's month and day.
pub fn special_of_date(d: &Date) -> (r: Option<Special>)
    ensures
        r == special_of(d.month as int, d.day as int),
{
    if (d.month == 10 && 30 <= d.day && d.day <= 31) || (d.month == 11 && d.day == 1) {
        Some(Special::Halloween)
    } else if d.month == 12 && 24 <= d.day && d.day <= 26 {
        Some(Special::Christmas)
    } else if (d.month == 12 && d.day == 31) || (d.month == 1 && 1 <= d.day && d.day <= 2) {
        Some(Special::NewYears)
    } else {
        None
    }
}

/// Whether an index predates the staleness threshold.
pub fn is_old_index(index: &Date) -> (r: bool)
    ensures
        r == (index.key() < old_threshold().key()),
{
    let t = Date { year: OLD_THRESHOLD_YEAR, month: OLD_THRESHOLD_MONTH, day: OLD_THRESHOLD_DAY };
    index.key_value() < t.key_value()
}

impl Post {
    /// Internal consistency: both dates are real calendar dates and
    /// every derived field agrees with its defining rule.
    pub open spec fn wf(self) -> bool {
        &&& self.index.valid()
        &&& self.date.valid()
        &&& self.title@.len() > 0
        &&& self.is_sunday == (day_of_week(
            self.date.year as int,
            self.date.month as int,
            self.date.day as int,
        ) == SUNDAY as int)
        &&& self.special == special_of(self.date.month as int, self.date.day as int)
        &&& self.is_old == (self.index.key() < old_threshold().key())
        &&& self.props.revised == (self.version > 0)
    }

    /// The index in its `YYYY-MM-DD` text form.
    pub fn index_text(&self) -> (r: String)
        requires
            self.index.valid(),
        ensures
            r@ == date_text(self.index),
    {
        format_date(&self.index)
    }

    /// The in-universe date in its `YYYY-MM-DD` text form.
    pub fn date_text_form(&self) -> (r: String)
        requires
            self.date.valid(),
        ensures
            r@ == date_text(self.date),
    {
        format_date(&self.date)
    }
}

/// One entry's directory, before parsing: the directory's own name,
/// the metadata fields in the order the descriptor gives them, and
/// whether each expected image file is present beside the descriptor.
#[derive(Clone, Debug)]
pub struct RawPost {
    pub dir_name: String,
    pub fields: Vec<(String, String)>,
    pub has_esperanto_image: bool,
    pub has_english_image: bool,
}

fn str_eq(a: &str, b: &str) -> (r: bool)
    ensures
        r == (a@ == b@),
{
    let la = a.unicode_len();
    let lb = b.unicode_len();
    if la != lb {
        return false;
    }
    let mut i: usize = 0;
    while i < la
        invariant
            la == a@.len(),
            lb == b@.len(),
            la == lb,
            i <= la,
            forall|j: int| 0 <= j < i ==> a@[j] == b@[j],
        decreases la - i,
    {
        if a.get_char(i) != b.get_char(i) {
            return false;
        }
        i += 1;
    }
    proof {
        assert(a@ =~= b@);
    }
    true
}

/// The value of the first field carrying a key, if any: later fields
/// under the same key, like unknown keys, are ignored.
pub open spec fn field_lookup(fields: Seq<(String, String)>, key: Seq<char>) -> Option<String>
    decreases fields.len(),
{
    if fields.len() == 0 {
        None
    } else if fields[0].0@ == key {
        Some(fields[0].1)
    } else {
        field_lookup(fields.subrange(1, fields.len() as int), key)
    }
}

fn lookup_field<'a>(fields: &'a Vec<(String, String)>, key: &str) -> (r: Option<&'a String>)
    ensures
        match r {
            Some(v) => field_lookup(fields@, key@) == Some(*v),
            None => field_lookup(fields@, key@) is None,
        },
{
    let n = fields.len();
    let mut i: usize = 0;
    proof {
        assert(fields@.subrange(0, n as int) =~= fields@);
    }
    while i < n
        invariant
            n == fields@.len(),
            i <= n,
            field_lookup(fields@, key@) == field_lookup(
                fields@.subrange(i as int, n as int),
                key@,
            ),
        decreases n - i,
    {
        proof {
            assert(fields@.subrange(i as int, n as int)[0] == fields@[i as int]);
            assert(fields@.subrange(i as int, n as int).subrange(
                1,
                fields@.subrange(i as int, n as int).len() as int,
            ) =~= fields@.subrange(i + 1, n as int));
        }
        if str_eq(fields[i].0.as_str(), key) {
            return Some(&fields[i].1);
        }
        i += 1;
    }
    proof {
        assert(fields@.subrange(n as int, n as int) =~= Seq::<(String, String)>::empty());
    }
    None
}

/// Every `old` field is immediately followed by its `new` half.
pub open spec fn errata_well_formed(fields: Seq<(String, String)>) -> bool {
    forall|i: int|
        0 <= i < fields.len() && (#[trigger] fields[i].0)@ == "old"@ ==> i + 1 < fields.len()
            && fields[i + 1].0@ == "new"@
}

/// The correction pairs the fields carry, in encounter order: each
/// `old` value paired with the value of the field right after it.
pub open spec fn errata_pairs(fields: Seq<(String, String)>) -> Seq<(String, String)>
    decreases fields.len(),
{
    if fields.len() == 0 {
        Seq::empty()
    } else if fields[0].0@ == "old"@ {
        if fields.len() >= 2 {
            seq![(fields[0].1, fields[1].1)] + errata_pairs(
                fields.subrange(2, fields.len() as int),
            )
        } else {
            Seq::empty()
        }
    } else {
        errata_pairs(fields.subrange(1, fields.len() as int))
    }
}

fn collect_errata(fields: &Vec<(String, String)>) -> (r: Result<Vec<(String, String)>, LoadError>)
    ensures
        r is Ok <==> errata_well_formed(fields@),
        r matches Ok(v) ==> v@ == errata_pairs(fields@),
        r is Err ==> r matches Err(LoadError::MalformedErrata),
{
    let n = fields.len();
    let mut out: Vec<(String, String)> = Vec::new();
    let mut i: usize = 0;
    proof {
        assert(fields@.subrange(0, n as int) =~= fields@);
    }
    while i < n
        invariant
            n == fields@.len(),
            i <= n,
            errata_pairs(fields@) =~= out@ + errata_pairs(fields@.subrange(i as int, n as int)),
            forall|j: int|
                0 <= j < i && (#[trigger] fields@[j].0)@ == "old"@ ==> j + 1 < n && fields@[j
                    + 1].0@ == "new"@,
        decreases n - i,
    {
        let ghost tail = fields@.subrange(i as int, n as int);
        proof {
            reveal_strlit("old");
            reveal_strlit("new");
            assert(tail[0] == fields@[i as int]);
        }
        if str_eq(fields[i].0.as_str(), "old") {
            if i + 1 < n && str_eq(fields[i + 1].0.as_str(), "new") {
                proof {
                    assert(tail.len() >= 2 && tail[1] == fields@[i + 1]);
                    assert(tail.subrange(2, tail.len() as int) =~= fields@.subrange(
                        i + 2,
                        n as int,
                    ));
                }
                let pair = (fields[i].1.clone(), fields[i + 1].1.clone());
                out.push(pair);
                proof {
                    assert(errata_pairs(fields@) =~= out@ + errata_pairs(
                        fields@.subrange(i + 2, n as int),
                    ));
                    assert("old"@ != "new"@) by {
                        assert("old"@[0] == 'o' && "new"@[0] == 'n');
                    }
                }
                i = i + 2;
            } else {
                proof {
                    assert(fields@[i as int].0@ == "old"@ && !(i + 1 < n && fields@[i + 1].0@
                        == "new"@));
                    assert(!errata_well_formed(fields@));
                }
                return Err(LoadError::MalformedErrata);
            }
        } else {
            proof {
                assert(tail.subrange(1, tail.len() as int) =~= fields@.subrange(i + 1, n as int));
            }
            i = i + 1;
        }
    }
    proof {
        assert(fields@.subrange(n as int, n as int) =~= Seq::<(String, String)>::empty());
        assert(out@ =~= out@ + errata_pairs(Seq::<(String, String)>::empty()));
    }
    Ok(out)
}

pub open spec fn pow10(n: nat) -> int
    decreases n,
{
    if n == 0 {
        1
    } else {
        10 * pow10((n - 1) as nat)
    }
}

/// Value of a string of decimal digits, most significant first.
pub open spec fn digits_val(s: Seq<char>) -> int
    decreases s.len(),
{
    if s.len() == 0 {
        0
    } else {
        10 * digits_val(s.subrange(0, s.len() - 1)) + digit_val(s[s.len() - 1])
    }
}

/// One to nine decimal digits: the accepted spelling of a revision
/// counter (nine digits keep the value far below the integer limit).
pub open spec fn is_version_text(s: Seq<char>) -> bool {
    &&& 1 <= s.len() <= 9
    &&& forall|i: int| 0 <= i < s.len() ==> is_digit(#[trigger] s[i])
}

/// The revision counter the fields carry: the first `version` value
/// when it is spelled as one to nine decimal digits, `0` otherwise
/// (a malformed optional field is ignored, like an unknown key).
pub open spec fn version_of(fields: Seq<(String, String)>) -> int {
    match field_lookup(fields, "version"@) {
        Some(v) => if is_version_text(v@) {
            digits_val(v@)
        } else {
            0
        },
        None => 0,
    }
}

proof fn lemma_pow10_increases(a: nat, b: nat)
    requires
        a <= b,
    ensures
        1 <= pow10(a) <= pow10(b),
    decreases b,
{
    if b > 0 {
        if a == b {
            lemma_pow10_increases((a - 1) as nat, (b - 1) as nat);
        } else {
            lemma_pow10_increases(a, (b - 1) as nat);
        }
    }
}

proof fn lemma_digits_val_bound(s: Seq<char>)
    requires
        forall|i: int| 0 <= i < s.len() ==> is_digit(#[trigger] s[i]),
    ensures
        0 <= digits_val(s) < pow10(s.len()),
    decreases s.len(),
{
    if s.len() > 0 {
        lemma_digits_val_bound(s.subrange(0, s.len() - 1));
    }
}

fn parse_version_text(v: &str) -> (r: u32)
    ensures
        r as int == if is_version_text(v@) {
            digits_val(v@)
        } else {
            0
        },
{
    let n = v.unicode_len();
    if n < 1 || n > 9 {
        return 0;
    }
    let mut acc: u32 = 0;
    let mut i: usize = 0;
    proof {
        assert(v@.subrange(0, 0) =~= Seq::<char>::empty());
    }
    while i < n
        invariant
            n == v@.len(),
            1 <= n <= 9,
            i <= n,
            forall|j: int| 0 <= j < i ==> is_digit(#[trigger] v@[j]),
            acc as int == digits_val(v@.subrange(0, i as int)),
            (acc as int) < pow10(i as nat),
        decreases n - i,
    {
        let d: u8 = match crate::date::digit_of(v.get_char(i)) {
            Some(d) => d,
            None => {
                return 0;
            },
        };
        proof {
            let t = v@.subrange(0, i + 1);
            assert(t.subrange(0, t.len() - 1) =~= v@.subrange(0, i as int));
            assert(t[t.len() - 1] == v@[i as int]);
            lemma_pow10_increases((i + 1) as nat, 9nat);
            assert(pow10(9nat) == 1000000000) by {
                reveal_with_fuel(pow10, 10);
            }
        }
        acc = 10 * acc + (d as u32);
        i += 1;
    }
    proof {
        assert(v@.subrange(0, n as int) =~= v@);
    }
    acc
}

/// Inputs on which an entry parses: a directory named by a real
/// calendar date, both image files present, a non-empty title, a
/// valid in-universe date, and well-formed errata.
pub open spec fn parse_accepts(raw: RawPost) -> bool {
    &&& valid_date_text(raw.dir_name@)
    &&& raw.has_esperanto_image
    &&& raw.has_english_image
    &&& (field_lookup(raw.fields@, "title"@) matches Some(t) && t@.len() > 0)
    &&& (field_lookup(raw.fields@, "date"@) matches Some(ds) && valid_date_text(ds@))
    &&& errata_well_formed(raw.fields@)
}

/// How a parsed post reads back the raw entry it came from.
pub open spec fn post_from_raw(raw: RawPost, p: Post) -> bool {
    &&& p.index == date_of_text(raw.dir_name@)
    &&& (field_lookup(raw.fields@, "title"@) matches Some(t) && p.title == t)
    &&& (field_lookup(raw.fields@, "date"@) matches Some(ds) && p.date == date_of_text(ds@))
    &&& p.version as int == version_of(raw.fields@)
    &&& p.props.good == (field_lookup(raw.fields@, "good"@) is Some)
    &&& p.props.notext == (field_lookup(raw.fields@, "notext"@) is Some)
    &&& p.errata.0@ == errata_pairs(raw.fields@)
    &&& p.transcript == field_lookup(raw.fields@, "transcript"@)
    &&& p.wf()
}

/// Which error a rejected entry earns. The checks run in a fixed
/// order — index, images, title, date, errata — and the first failing
/// one names the error.
pub open spec fn parse_error_spec(raw: RawPost, e: LoadError) -> bool {
    let fields = raw.fields@;
    if !valid_date_text(raw.dir_name@) {
        e is MalformedIndex
    } else if !raw.has_esperanto_image || !raw.has_english_image {
        e is MissingAsset
    } else if !(field_lookup(fields, "title"@) matches Some(t) && t@.len() > 0) {
        e matches LoadError::MissingField(name) && name@ == "title"@
    } else if field_lookup(fields, "date"@) is None {
        e matches LoadError::MissingField(name) && name@ == "date"@
    } else if !(field_lookup(fields, "date"@) matches Some(ds) && valid_date_text(ds@)) {
        e is MalformedIndex
    } else if !errata_well_formed(fields) {
        e is MalformedErrata
    } else {
        false
    }
}

/// Parses one entry into a post, or says exactly why it is rejected.
/// No global state is touched: failure has no observable side effect.
pub fn parse_post(raw: &RawPost) -> (r: Result<Post, LoadError>)
    ensures
        r is Ok <==> parse_accepts(*raw),
        r matches Ok(p) ==> post_from_raw(*raw, p),
        r matches Err(e) ==> parse_error_spec(*raw, e),
{
    let index = match parse_date(raw.dir_name.as_str()) {
        Some(d) => d,
        None => {
            return Err(LoadError::MalformedIndex);
        },
    };
    if !raw.has_esperanto_image || !raw.has_english_image {
        return Err(LoadError::MissingAsset);
    }
    let title = match lookup_field(&raw.fields, "title") {
        Some(t) => t.clone(),
        None => {
            return Err(LoadError::MissingField(String::from_str("title")));
        },
    };
    if title.as_str().unicode_len() == 0 {
        return Err(LoadError::MissingField(String::from_str("title")));
    }
    let date = match lookup_field(&raw.fields, "date") {
        Some(v) => match parse_date(v.as_str()) {
            Some(d) => d,
            None => {
                return Err(LoadError::MalformedIndex);
            },
        },
        None => {
            return Err(LoadError::MissingField(String::from_str("date")));
        },
    };
    let errata_vec = match collect_errata(&raw.fields) {
        Ok(v) => v,
        Err(e) => {
            return Err(e);
        },
    };
    let version: u32 = match lookup_field(&raw.fields, "version") {
        Some(v) => parse_version_text(v.as_str()),
        None => 0,
    };
    let good = lookup_field(&raw.fields, "good").is_some();
    let notext = lookup_field(&raw.fields, "notext").is_some();
    let transcript = match lookup_field(&raw.fields, "transcript") {
        Some(t) => Some(t.clone()),
        None => None,
    };
    Ok(
        Post {
            index,
            title,
            date,
            is_sunday: date.is_sunday(),
            special: special_of_date(&date),
            version,
            is_old: is_old_index(&index),
            props: Props { good, notext, revised: version > 0 },
            errata: Errata(errata_vec),
            transcript,
        },
    )
}

} // verus!
