//! The header fields of HTTP responses.
use std::fmt::Write;

use hyper::header::Headers;
use time::Tm;
use vstd::prelude::*;

use crate::numerals;

verus! {

/// The header fields of `hyper`.
#[verifier::external_type_specification]
#[verifier::external_body]
pub struct ExHeaders(hyper::header::Headers);

/// The broken-down times of `time`, whose fields verified code reads.
#[verifier::external_type_specification]
pub struct ExTm(time::Tm);

/// The error of writing text.
#[verifier::external_type_specification]
#[verifier::external_body]
pub struct ExFmtError(std::fmt::Error);

/// A header field: its name, and the lines that are written for it; `None` where the value of the
/// field cannot be written, because formatting it fails or panics.
pub type HeaderField = (Seq<char>, Option<Seq<char>>);

/// The fields of a header, in the order in which they are written.
pub uninterp spec fn header_fields(headers: Headers) -> Seq<HeaderField>;

/// An ASCII letter in lower case; any other character as it is.
pub open spec fn lower_case(c: char) -> char {
    if 'A' <= c && c <= 'Z' {
        (c as u32 + 32) as char
    } else {
        c
    }
}

/// Whether two names are the same up to the case of ASCII letters.
pub open spec fn same_name(a: Seq<char>, b: Seq<char>) -> bool {
    a.map_values(|c: char| lower_case(c)) == b.map_values(|c: char| lower_case(c))
}

/// Whether there is a field with the given name.
pub open spec fn has_field(fields: Seq<HeaderField>, name: Seq<char>) -> bool {
    exists|i: int| 0 <= i < fields.len() && same_name(name, (#[trigger] fields[i]).0)
}

/// The fields with one more, which takes the place of the field with the same name if there is
/// one.
pub open spec fn put_field(fields: Seq<HeaderField>, field: HeaderField) -> Seq<HeaderField>
    decreases fields.len(),
{
    if fields.len() == 0 {
        seq![field]
    } else if same_name(field.0, fields[0].0) {
        fields.update(0, field)
    } else {
        seq![fields[0]] + put_field(fields.skip(1), field)
    }
}

/// A text with every line break replaced by a space.
pub open spec fn one_line(text: Seq<char>) -> Seq<char> {
    text.map_values(
        |c: char|
            if c == '\r' || c == '\n' {
                ' '
            } else {
                c
            },
    )
}

/// A field with a value of one line.
pub open spec fn text_field(name: Seq<char>, value: Seq<char>) -> HeaderField {
    (name, Some(name + ": "@ + one_line(value) + "\r\n"@))
}

/// A number below 100 in two decimal digits.
pub open spec fn two_digits(n: int) -> Seq<char> {
    seq![numerals::digit((n / 10) as nat), numerals::digit(n as nat)]
}

/// The abbreviation of a day of the week.
pub open spec fn day_name(n: i32) -> Seq<char> {
    match n {
        0i32 => "Sun"@,
        1i32 => "Mon"@,
        2i32 => "Tue"@,
        3i32 => "Wed"@,
        4i32 => "Thu"@,
        5i32 => "Fri"@,
        _ => "Sat"@,
    }
}

/// The abbreviation of a month.
pub open spec fn month_name(n: i32) -> Seq<char> {
    match n {
        0i32 => "Jan"@,
        1i32 => "Feb"@,
        2i32 => "Mar"@,
        3i32 => "Apr"@,
        4i32 => "May"@,
        5i32 => "Jun"@,
        6i32 => "Jul"@,
        7i32 => "Aug"@,
        8i32 => "Sep"@,
        9i32 => "Oct"@,
        10i32 => "Nov"@,
        _ => "Dec"@,
    }
}

/// Whether a time is in UTC and all its parts are in their ranges, and the year can be counted
/// from the start of the era.
pub open spec fn is_utc_time(time: Tm) -> bool {
    &&& time.tm_utcoff == 0
    &&& 0 <= time.tm_wday <= 6
    &&& 1 <= time.tm_mday <= 31
    &&& 0 <= time.tm_mon <= 11
    &&& time.tm_year <= i32::MAX - 1900
    &&& 0 <= time.tm_hour <= 23
    &&& 0 <= time.tm_min <= 59
    &&& 0 <= time.tm_sec <= 60
}

/// A time as HTTP writes it.
pub open spec fn http_date(time: Tm) -> Seq<char> {
    let day = two_digits(time.tm_mday as int);
    let year = numerals::signed_decimal(time.tm_year + 1900);
    let hour = two_digits(time.tm_hour as int);
    let minute = two_digits(time.tm_min as int);
    let second = two_digits(time.tm_sec as int);
    day_name(time.tm_wday) + ", "@ + day + " "@ + month_name(time.tm_mon) + " "@ + year + " "@
        + hour + ":"@ + minute + ":"@ + second + " GMT"@
}

/// The lines of fields, one after the other.
pub open spec fn lines(fields: Seq<HeaderField>) -> Seq<char>
    decreases fields.len(),
{
    if fields.len() == 0 {
        Seq::empty()
    } else {
        fields[0].1.unwrap() + lines(fields.skip(1))
    }
}

/// Whether the value of every field can be written.
pub open spec fn printable(fields: Seq<HeaderField>) -> bool {
    forall|i: int| 0 <= i < fields.len() ==> (#[trigger] fields[i]).1 is Some
}

/// Whether no two fields have the same name.
pub open spec fn distinct_names(fields: Seq<HeaderField>) -> bool {
    forall|i: int, j: int|
        0 <= i < j < fields.len() ==> !same_name(
            (#[trigger] fields[i]).0,
            (#[trigger] fields[j]).0,
        )
}

/// The number of fields with the given name.
pub open spec fn count_named(fields: Seq<HeaderField>, name: Seq<char>) -> nat
    decreases fields.len(),
{
    if fields.len() == 0 {
        0
    } else {
        count_named(fields.skip(1), name) + if same_name(name, fields[0].0) {
            1nat
        } else {
            0nat
        }
    }
}

/// Fields that can be written stay so with one more that can be.
pub(crate) proof fn lemma_put_field_printable(fields: Seq<HeaderField>, field: HeaderField)
    requires
        printable(fields),
        field.1 is Some,
    ensures
        printable(put_field(fields, field)),
    decreases fields.len(),
{
    if fields.len() > 0 && !same_name(field.0, fields[0].0) {
        assert(printable(fields.skip(1))) by {
            assert forall|i: int| 0 <= i < fields.skip(1).len() implies (
            #[trigger] fields.skip(1)[i]).1 is Some by {
                assert(fields[i + 1].1 is Some);
            }
        }
        lemma_put_field_printable(fields.skip(1), field);
    }
}

/// `hyper::header::Headers::new`: a header without fields.
pub assume_specification[ hyper::header::Headers::new ]() -> (r: Headers)
    ensures
        header_fields(r) == Seq::<HeaderField>::empty(),
;

/// `hyper::header::Headers::has` for the field `Date`.
#[verifier::external_body]
pub(crate) fn has_date(headers: &Headers) -> (r: bool)
    ensures
        r == has_field(header_fields(*headers), "Date"@),
{
    headers.has::<hyper::header::Date>()
}

/// `hyper::header::Headers::set` for the field `Date`, with the time as HTTP writes it.
#[verifier::external_body]
pub(crate) fn set_date(headers: &mut Headers, now: Tm)
    requires
        is_utc_time(now),
    ensures
        header_fields(*final(headers)) == put_field(
            header_fields(*old(headers)),
            text_field("Date"@, http_date(now)),
        ),
{
    headers.set(hyper::header::Date(hyper::header::HttpDate(now)))
}

/// `hyper::header::Headers::set` for the field `Content-Length`, with the number in decimal
/// notation.
#[verifier::external_body]
pub(crate) fn set_content_length(headers: &mut Headers, length: u64)
    ensures
        header_fields(*final(headers)) == put_field(
            header_fields(*old(headers)),
            text_field("Content-Length"@, numerals::decimal(length as nat)),
        ),
{
    headers.set(hyper::header::ContentLength(length))
}

/// `hyper::header::Headers::set` for the field `Content-Type`, with the media type of HTML in
/// UTF-8.
#[verifier::external_body]
pub(crate) fn set_content_type_html(headers: &mut Headers)
    ensures
        header_fields(*final(headers)) == put_field(
            header_fields(*old(headers)),
            text_field("Content-Type"@, "text/html; charset=utf-8"@),
        ),
{
    headers.set(hyper::header::ContentType::html())
}

/// `hyper::header::Headers::set` for the field `Server`, with the given name.
#[verifier::external_body]
pub(crate) fn set_server(headers: &mut Headers, name: String)
    ensures
        header_fields(*final(headers)) == put_field(
            header_fields(*old(headers)),
            text_field("Server"@, name@),
        ),
{
    headers.set(hyper::header::Server(name))
}

/// The `Display` of `hyper::header::Headers`, where every field can be written: the lines of all
/// fields in their order. A header holds no two fields with the same name, since all that adds a
/// field looks for its name first.
#[verifier::external_body]
pub(crate) fn headers_text(headers: &Headers) -> (r: Result<String, std::fmt::Error>)
    requires
        printable(header_fields(*headers)),
    ensures
        match r {
            Ok(text) => {
                &&& printable(header_fields(*headers))
                &&& distinct_names(header_fields(*headers))
                &&& text@ == lines(header_fields(*headers))
            },
            Err(_) => !printable(header_fields(*headers)),
        },
{
    let mut text = String::new();
    write!(text, "{}", headers)?;
    Ok(text)
}

/// Whether a clock can show a time: it is in UTC and all its parts are in their ranges, unless its
/// year cannot be counted from the start of the era.
pub open spec fn is_clock_time(time: Tm) -> bool {
    time.tm_year <= i32::MAX - 1900 ==> is_utc_time(time)
}

/// `time::now_utc`: the time on the clock. It is in UTC, and its parts are in the ranges that
/// `time::Tm` documents; there is none for the year. Nothing else is claimed of it.
#[verifier::external_body]
pub(crate) fn now_utc() -> (r: Tm)
    ensures
        is_clock_time(r),
{
    time::now_utc()
}

/// Whether a time is what the clock showed when it was read.
pub closed spec fn is_reading(time: Tm) -> bool {
    call_ensures(now_utc, (), time)
}

/// Reads the clock.
pub(crate) fn read_clock() -> (r: Tm)
    ensures
        is_reading(r),
        is_clock_time(r),
{
    now_utc()
}

/// A reading is what a call of `now_utc` returned, and so a time that a clock can show.
pub(crate) proof fn law_reading(time: Tm)
    requires
        is_reading(time),
    ensures
        call_ensures(now_utc, (), time),
        is_clock_time(time),
{
}

/// Whether a time is in UTC and all its parts are in their ranges.
pub fn has_utc_ranges(time: &Tm) -> (r: bool)
    ensures
        r == is_utc_time(*time),
{
    time.tm_utcoff == 0 && 0 <= time.tm_wday && time.tm_wday <= 6 && 1 <= time.tm_mday
        && time.tm_mday <= 31 && 0 <= time.tm_mon && time.tm_mon <= 11
        && time.tm_year <= i32::MAX - 1900 && 0 <= time.tm_hour && time.tm_hour <= 23 && 0
        <= time.tm_min && time.tm_min <= 59 && 0 <= time.tm_sec && time.tm_sec <= 60
}

/// A time can be written if and only if it is in UTC, its parts are those of a time of day and a
/// day of a year, and its year can be counted from the start of the era.
pub proof fn law_writable_times(time: Tm)
    ensures
        is_utc_time(time) <==> {
            &&& time.tm_utcoff == 0
            &&& 0 <= time.tm_sec < 61 && 0 <= time.tm_min < 60 && 0 <= time.tm_hour < 24
            &&& 0 < time.tm_mday < 32 && 0 <= time.tm_mon < 12 && 0 <= time.tm_wday < 7
            &&& time.tm_year + 1900 <= i32::MAX
        },
{
}

/// The first field with the given name.
pub open spec fn field_named(fields: Seq<HeaderField>, name: Seq<char>) -> Option<HeaderField>
    decreases fields.len(),
{
    if fields.len() == 0 {
        None
    } else if same_name(name, fields[0].0) {
        Some(fields[0])
    } else {
        field_named(fields.skip(1), name)
    }
}

/// Setting a field is what a later look at its name finds, and it changes what is found under no
/// other name. There is a field with a given name exactly if one is found.
pub proof fn law_put_field(fields: Seq<HeaderField>, field: HeaderField, name: Seq<char>)
    ensures
        field_named(put_field(fields, field), field.0) == Some(field),
        !same_name(name, field.0) ==> field_named(put_field(fields, field), name) == field_named(
            fields,
            name,
        ),
        has_field(fields, name) == field_named(fields, name) is Some,
    decreases fields.len(),
{
    let put = put_field(fields, field);
    if fields.len() == 0 {
        assert(put.skip(1) =~= fields);
    } else {
        law_put_field(fields.skip(1), field, name);
        if same_name(field.0, fields[0].0) {
            assert(put.skip(1) =~= fields.skip(1));
        } else {
            assert(put.skip(1) =~= put_field(fields.skip(1), field));
        }
        if has_field(fields, name) && !same_name(name, fields[0].0) {
            let i = choose|i: int|
                0 <= i < fields.len() && same_name(name, (#[trigger] fields[i]).0);
            assert(same_name(name, fields.skip(1)[i - 1].0));
        }
        if has_field(fields.skip(1), name) {
            let i = choose|i: int|
                0 <= i < fields.skip(1).len() && same_name(name, (#[trigger] fields.skip(1)[i]).0);
            assert(same_name(name, fields[i + 1].0));
        }
    }
}

/// A field with a new name is added at the end.
pub(crate) proof fn lemma_put_new_field(fields: Seq<HeaderField>, field: HeaderField)
    requires
        !has_field(fields, field.0),
    ensures
        put_field(fields, field) == fields.push(field),
    decreases fields.len(),
{
    if fields.len() == 0 {
        assert(seq![field] =~= fields.push(field));
    } else {
        let rest = fields.skip(1);
        assert(!same_name(field.0, fields[0].0));
        assert forall|i: int| 0 <= i < rest.len() implies !same_name(
            field.0,
            (#[trigger] rest[i]).0,
        ) by {
            assert(!same_name(field.0, fields[i + 1].0));
        }
        lemma_put_new_field(rest, field);
        assert(seq![fields[0]] + rest.push(field) =~= fields.push(field));
    }
}

/// A field whose name is there takes the place of the first field with that name.
proof fn lemma_put_at(fields: Seq<HeaderField>, field: HeaderField) -> (k: int)
    requires
        has_field(fields, field.0),
    ensures
        0 <= k < fields.len(),
        same_name(field.0, fields[k].0),
        put_field(fields, field) == fields.update(k, field),
    decreases fields.len(),
{
    if same_name(field.0, fields[0].0) {
        0
    } else {
        let rest = fields.skip(1);
        let i = choose|i: int|
            0 <= i < fields.len() && same_name(field.0, (#[trigger] fields[i]).0);
        assert(same_name(field.0, rest[i - 1].0));
        let k = lemma_put_at(rest, field);
        assert(seq![fields[0]] + rest.update(k, field) =~= fields.update(k + 1, field));
        k + 1
    }
}

/// Setting a field neither brings about nor removes fields with the same name.
pub proof fn law_put_field_keeps_names_distinct(fields: Seq<HeaderField>, field: HeaderField)
    ensures
        distinct_names(put_field(fields, field)) == distinct_names(fields),
{
    let put = put_field(fields, field);
    if has_field(fields, field.0) {
        let k = lemma_put_at(fields, field);
        if distinct_names(fields) {
            assert forall|i: int, j: int| 0 <= i < j < put.len() implies !same_name(
                (#[trigger] put[i]).0,
                (#[trigger] put[j]).0,
            ) by {
                assert(!same_name(fields[i].0, fields[j].0));
            }
        }
        if distinct_names(put) {
            assert forall|i: int, j: int| 0 <= i < j < fields.len() implies !same_name(
                (#[trigger] fields[i]).0,
                (#[trigger] fields[j]).0,
            ) by {
                assert(!same_name(put[i].0, put[j].0));
            }
        }
    } else {
        lemma_put_new_field(fields, field);
        if distinct_names(put) {
            assert forall|i: int, j: int| 0 <= i < j < fields.len() implies !same_name(
                (#[trigger] fields[i]).0,
                (#[trigger] fields[j]).0,
            ) by {
                assert(!same_name(put[i].0, put[j].0));
            }
        }
    }
}

/// Where no two fields have the same name, a name that is there occurs once.
pub proof fn law_distinct_names_occur_once(fields: Seq<HeaderField>, name: Seq<char>)
    requires
        distinct_names(fields),
    ensures
        count_named(fields, name) == if has_field(fields, name) {
            1nat
        } else {
            0nat
        },
    decreases fields.len(),
{
    if fields.len() > 0 {
        let rest = fields.skip(1);
        assert forall|i: int, j: int| 0 <= i < j < rest.len() implies !same_name(
            (#[trigger] rest[i]).0,
            (#[trigger] rest[j]).0,
        ) by {
            assert(!same_name(fields[i + 1].0, fields[j + 1].0));
        }
        law_distinct_names_occur_once(rest, name);
        if has_field(rest, name) {
            let i = choose|i: int|
                0 <= i < rest.len() && same_name(name, (#[trigger] rest[i]).0);
            assert(same_name(name, fields[i + 1].0));
            assert(!same_name(fields[0].0, fields[i + 1].0));
        }
        if has_field(fields, name) && !same_name(name, fields[0].0) {
            let i = choose|i: int|
                0 <= i < fields.len() && same_name(name, (#[trigger] fields[i]).0);
            assert(same_name(name, rest[i - 1].0));
        }
    }
}

/// Names of different lengths are different names.
pub(crate) proof fn lemma_other_length(a: Seq<char>, b: Seq<char>)
    requires
        a.len() != b.len(),
    ensures
        !same_name(a, b),
{
    assert(a.map_values(|c: char| lower_case(c)).len() == a.len());
    assert(b.map_values(|c: char| lower_case(c)).len() == b.len());
}

} // verus!
