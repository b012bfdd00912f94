//! The snapshot codec: renders a list of shows as a compact JSON array
//! of records — `{"title":…,"date":"YYYY-MM-DD","time":"HH:MM:SS",
//! "category":…}` — and reads such text back. Reading is the exact
//! inverse of writing (the round-trip law below); any other text is
//! rejected, which the store treats as an absent snapshot.
use vstd::prelude::*;

use crate::dates::{
    date_chars, make_date, num2, num4, push_date_chars, push_time_chars, time_chars, valid_date,
    valid_time, valid_ymd, Date, Time,
};
use crate::shows::{category_name, show_views, show_wf, Category, Show, ShowView};
use crate::text::{char_vec_eq, chars_to_string, digit_val, is_digit, is_digit_char, to_char_vec};

verus! {

/// The escaped form of one character: quote and backslash get a
/// backslash prefix, every other character stands as itself.
pub open spec fn esc_char(c: char) -> Seq<char> {
    if c == '"' || c == '\\' {
        seq!['\\', c]
    } else {
        seq![c]
    }
}

/// The escaped form of a string's characters.
pub open spec fn esc(s: Seq<char>) -> Seq<char>
    decreases s.len(),
{
    if s.len() == 0 {
        Seq::empty()
    } else {
        esc_char(s[0]) + esc(s.drop_first())
    }
}

/// One show's record.
pub open spec fn show_json(s: ShowView) -> Seq<char> {
    "{\"title\":\""@ + esc(s.title) + "\",\"date\":\""@ + date_chars(s.date) + "\",\"time\":\""@
        + time_chars(s.time) + "\",\"category\":\""@ + category_name(s.category) + "\"}"@
}

/// The comma-separated records.
pub open spec fn shows_json(shows: Seq<ShowView>) -> Seq<char>
    decreases shows.len(),
{
    if shows.len() == 0 {
        Seq::empty()
    } else if shows.len() == 1 {
        show_json(shows[0])
    } else {
        shows_json(shows.drop_last()) + seq![','] + show_json(shows.last())
    }
}

/// The whole snapshot: the records bracketed as a JSON array.
pub open spec fn snapshot_json(shows: Seq<ShowView>) -> Seq<char> {
    seq!['['] + shows_json(shows) + seq![']']
}

/// Reads an escaped string up to its closing quote: the content and
/// what follows the quote, or `None` where the text is not of that form.
pub open spec fn unescape_to(s: Seq<char>) -> Option<(Seq<char>, Seq<char>)>
    decreases s.len(),
{
    if s.len() == 0 {
        None
    } else if s[0] == '"' {
        Some((Seq::empty(), s.drop_first()))
    } else if s[0] == '\\' {
        if s.len() >= 2 && (s[1] == '"' || s[1] == '\\') {
            match unescape_to(s.subrange(2, s.len() as int)) {
                Some(p) => Some((seq![s[1]] + p.0, p.1)),
                None => None,
            }
        } else {
            None
        }
    } else {
        match unescape_to(s.drop_first()) {
            Some(p) => Some((seq![s[0]] + p.0, p.1)),
            None => None,
        }
    }
}

/// Consumes an exact literal prefix.
pub open spec fn expect_lit(s: Seq<char>, lit: Seq<char>) -> Option<Seq<char>> {
    if s.len() >= lit.len() && s.subrange(0, lit.len() as int) == lit {
        Some(s.subrange(lit.len() as int, s.len() as int))
    } else {
        None
    }
}

/// Reads exactly two decimal digits.
pub open spec fn read2(s: Seq<char>) -> Option<(int, Seq<char>)> {
    if s.len() >= 2 && is_digit_char(s[0]) && is_digit_char(s[1]) {
        Some((digit_val(s[0]) * 10 + digit_val(s[1]), s.subrange(2, s.len() as int)))
    } else {
        None
    }
}

/// Reads exactly four decimal digits.
pub open spec fn read4(s: Seq<char>) -> Option<(int, Seq<char>)> {
    if s.len() >= 4 && is_digit_char(s[0]) && is_digit_char(s[1]) && is_digit_char(s[2])
        && is_digit_char(s[3]) {
        Some(
            (
                digit_val(s[0]) * 1000 + digit_val(s[1]) * 100 + digit_val(s[2]) * 10 + digit_val(
                    s[3],
                ),
                s.subrange(4, s.len() as int),
            ),
        )
    } else {
        None
    }
}

/// Reads a `YYYY-MM-DD` date; the combination must be valid.
pub open spec fn read_date(s: Seq<char>) -> Option<(Date, Seq<char>)> {
    match read4(s) {
        None => None,
        Some((y, r1)) => if r1.len() >= 1 && r1[0] == '-' {
            match read2(r1.drop_first()) {
                None => None,
                Some((mo, r2)) => if r2.len() >= 1 && r2[0] == '-' {
                    match read2(r2.drop_first()) {
                        None => None,
                        Some((d, r3)) => if valid_ymd(y, mo, d) {
                            Some((Date { year: y as u16, month: mo as u8, day: d as u8 }, r3))
                        } else {
                            None
                        },
                    }
                } else {
                    None
                },
            }
        } else {
            None
        },
    }
}

/// Reads an `HH:MM:SS` time; the fields must be in range.
pub open spec fn read_time(s: Seq<char>) -> Option<(Time, Seq<char>)> {
    match read2(s) {
        None => None,
        Some((h, r1)) => if r1.len() >= 1 && r1[0] == ':' {
            match read2(r1.drop_first()) {
                None => None,
                Some((mi, r2)) => if r2.len() >= 1 && r2[0] == ':' {
                    match read2(r2.drop_first()) {
                        None => None,
                        Some((se, r3)) => if h < 24 && mi < 60 && se < 60 {
                            Some((Time { hour: h as u8, minute: mi as u8, second: se as u8 }, r3))
                        } else {
                            None
                        },
                    }
                } else {
                    None
                },
            }
        } else {
            None
        },
    }
}

/// The category a stored tag names, if any.
pub open spec fn category_of_name(n: Seq<char>) -> Option<Category> {
    if n == category_name(Category::Unassigned) {
        Some(Category::Unassigned)
    } else if n == category_name(Category::Comedy) {
        Some(Category::Comedy)
    } else if n == category_name(Category::Music) {
        Some(Category::Music)
    } else {
        None
    }
}

/// Reads a record's trailing category field and closing brace.
pub open spec fn read_tail2(title: Seq<char>, d: Date, t: Time, s: Seq<char>) -> Option<
    (ShowView, Seq<char>),
> {
    match expect_lit(s, "\",\"category\":\""@) {
        None => None,
        Some(r7) => match unescape_to(r7) {
            None => None,
            Some((name, r8)) => match category_of_name(name) {
                None => None,
                Some(c) => if r8.len() >= 1 && r8[0] == '}' {
                    Some((ShowView { title, date: d, time: t, category: c }, r8.drop_first()))
                } else {
                    None
                },
            },
        },
    }
}

/// Reads a record's time field and what follows it.
pub open spec fn read_tail1(title: Seq<char>, d: Date, s: Seq<char>) -> Option<
    (ShowView, Seq<char>),
> {
    match expect_lit(s, "\",\"time\":\""@) {
        None => None,
        Some(r5) => match read_time(r5) {
            None => None,
            Some((t, r6)) => read_tail2(title, d, t, r6),
        },
    }
}

/// Reads a record's date field and what follows it.
pub open spec fn read_meta(title: Seq<char>, s: Seq<char>) -> Option<(ShowView, Seq<char>)> {
    match expect_lit(s, ",\"date\":\""@) {
        None => None,
        Some(r3) => match read_date(r3) {
            None => None,
            Some((d, r4)) => read_tail1(title, d, r4),
        },
    }
}

/// Reads one record.
pub open spec fn read_show(s: Seq<char>) -> Option<(ShowView, Seq<char>)> {
    match expect_lit(s, "{\"title\":\""@) {
        None => None,
        Some(r1) => match unescape_to(r1) {
            None => None,
            Some((title, r2)) => read_meta(title, r2),
        },
    }
}

/// Reads one or more comma-separated records.
pub open spec fn read_shows(s: Seq<char>) -> Option<(Seq<ShowView>, Seq<char>)>
    decreases s.len(),
{
    match read_show(s) {
        None => None,
        Some((sh, r)) => if r.len() >= 1 && r[0] == ',' {
            if r.len() < s.len() {
                match read_shows(r.drop_first()) {
                    None => None,
                    Some((rest_shows, r2)) => Some((seq![sh] + rest_shows, r2)),
                }
            } else {
                None
            }
        } else {
            Some((seq![sh], r))
        },
    }
}

/// What loading snapshot text returns: the shows it encodes, or `None`
/// where the text is not exactly a snapshot this codec writes.
pub open spec fn spec_load(s: Seq<char>) -> Option<Seq<ShowView>> {
    if s.len() >= 1 && s[0] == '[' {
        let r = s.drop_first();
        if r.len() == 1 && r[0] == ']' {
            Some(Seq::empty())
        } else {
            match read_shows(r) {
                None => None,
                Some((shows, rest)) => if rest.len() == 1 && rest[0] == ']' {
                    Some(shows)
                } else {
                    None
                },
            }
        }
    } else {
        None
    }
}

proof fn lemma_expect_lit(lit: Seq<char>, rest: Seq<char>)
    ensures
        expect_lit(lit + rest, lit) == Some(rest),
{
    let s = lit + rest;
    assert(s.subrange(0, lit.len() as int) =~= lit);
    assert(s.subrange(lit.len() as int, s.len() as int) =~= rest);
}

proof fn lemma_unescape_esc(t: Seq<char>, rest: Seq<char>)
    ensures
        unescape_to(esc(t) + seq!['"'] + rest) == Some((t, rest)),
    decreases t.len(),
{
    let s = esc(t) + seq!['"'] + rest;
    if t.len() == 0 {
        assert(s =~= seq!['"'] + rest);
        assert(s[0] == '"');
        assert(s.drop_first() =~= rest);
    } else {
        let c = t[0];
        let t1 = t.drop_first();
        lemma_unescape_esc(t1, rest);
        if c == '"' || c == '\\' {
            assert(s[0] == '\\');
            assert(s[1] == c);
            assert(s.len() >= 2);
            assert(s.subrange(2, s.len() as int) =~= esc(t1) + seq!['"'] + rest);
            assert(seq![c] + t1 =~= t);
        } else {
            assert(s[0] == c);
            assert(s.drop_first() =~= esc(t1) + seq!['"'] + rest);
            assert(seq![c] + t1 =~= t);
        }
    }
}

/// A string without quote or backslash characters escapes to itself.
proof fn lemma_esc_plain(t: Seq<char>)
    requires
        forall|i: int| 0 <= i < t.len() ==> t[i] != '"' && t[i] != '\\',
    ensures
        esc(t) == t,
    decreases t.len(),
{
    if t.len() > 0 {
        assert forall|i: int| 0 <= i < t.drop_first().len() implies t.drop_first()[i] != '"'
            && t.drop_first()[i] != '\\' by {
            assert(t.drop_first()[i] == t[i + 1]);
        }
        lemma_esc_plain(t.drop_first());
        assert(esc(t) =~= t);
    }
}

proof fn lemma_read2_num2(n: int, rest: Seq<char>)
    requires
        0 <= n <= 99,
    ensures
        read2(num2(n) + rest) == Some((n, rest)),
{
    broadcast use vstd::arithmetic::div_mod::lemma_mod_bound;

    let s = num2(n) + rest;
    assert(0 <= n % 10 < 10);
    assert(0 <= n / 10 <= 9);
    assert(s[0] == ((48 + n / 10) as u8) as char);
    assert(s[1] == ((48 + n % 10) as u8) as char);
    assert(digit_val(s[0]) == n / 10);
    assert(digit_val(s[1]) == n % 10);
    vstd::arithmetic::div_mod::lemma_fundamental_div_mod(n, 10);
    assert(s.subrange(2, s.len() as int) =~= rest);
}

proof fn lemma_read4_num4(n: int, rest: Seq<char>)
    requires
        0 <= n <= 9999,
    ensures
        read4(num4(n) + rest) == Some((n, rest)),
{
    broadcast use vstd::arithmetic::div_mod::lemma_mod_bound;

    let s = num4(n) + rest;
    assert(0 <= n / 1000 <= 9);
    assert(digit_val(s[0]) == n / 1000);
    assert(digit_val(s[1]) == (n / 100) % 10);
    assert(digit_val(s[2]) == (n / 10) % 10);
    assert(digit_val(s[3]) == n % 10);
    vstd::arithmetic::div_mod::lemma_fundamental_div_mod(n, 10);
    vstd::arithmetic::div_mod::lemma_fundamental_div_mod(n / 10, 10);
    vstd::arithmetic::div_mod::lemma_fundamental_div_mod(n / 100, 10);
    assert(n / 10 / 10 == n / 100) by {
        vstd::arithmetic::div_mod::lemma_div_denominator(n, 10, 10);
    }
    assert(n / 100 / 10 == n / 1000) by {
        vstd::arithmetic::div_mod::lemma_div_denominator(n, 100, 10);
    }
    assert(digit_val(s[0]) * 1000 + digit_val(s[1]) * 100 + digit_val(s[2]) * 10 + digit_val(
        s[3],
    ) == n);
    assert(s.subrange(4, s.len() as int) =~= rest);
}

#[verifier::rlimit(100)]
#[verifier::spinoff_prover]
proof fn lemma_read_date(d: Date, rest: Seq<char>)
    requires
        valid_date(d),
    ensures
        read_date(date_chars(d) + rest) == Some((d, rest)),
{
    let s = date_chars(d) + rest;
    assert(s =~= num4(d.year as int) + (seq!['-'] + num2(d.month as int) + seq!['-'] + num2(
        d.day as int,
    ) + rest));
    lemma_read4_num4(d.year as int, seq!['-'] + num2(d.month as int) + seq!['-'] + num2(
        d.day as int,
    ) + rest);
    let r1 = seq!['-'] + num2(d.month as int) + seq!['-'] + num2(d.day as int) + rest;
    assert(r1[0] == '-');
    assert(r1.drop_first() =~= num2(d.month as int) + (seq!['-'] + num2(d.day as int) + rest));
    lemma_read2_num2(d.month as int, seq!['-'] + num2(d.day as int) + rest);
    let r2 = seq!['-'] + num2(d.day as int) + rest;
    assert(r2[0] == '-');
    assert(r2.drop_first() =~= num2(d.day as int) + rest);
    lemma_read2_num2(d.day as int, rest);
}

#[verifier::rlimit(100)]
#[verifier::spinoff_prover]
proof fn lemma_read_time(t: Time, rest: Seq<char>)
    requires
        valid_time(t),
    ensures
        read_time(time_chars(t) + rest) == Some((t, rest)),
{
    let s = time_chars(t) + rest;
    assert(s =~= num2(t.hour as int) + (seq![':'] + num2(t.minute as int) + seq![':'] + num2(
        t.second as int,
    ) + rest));
    lemma_read2_num2(t.hour as int, seq![':'] + num2(t.minute as int) + seq![':'] + num2(
        t.second as int,
    ) + rest);
    let r1 = seq![':'] + num2(t.minute as int) + seq![':'] + num2(t.second as int) + rest;
    assert(r1[0] == ':');
    assert(r1.drop_first() =~= num2(t.minute as int) + (seq![':'] + num2(t.second as int)
        + rest));
    lemma_read2_num2(t.minute as int, seq![':'] + num2(t.second as int) + rest);
    let r2 = seq![':'] + num2(t.second as int) + rest;
    assert(r2[0] == ':');
    assert(r2.drop_first() =~= num2(t.second as int) + rest);
    lemma_read2_num2(t.second as int, rest);
}

proof fn lemma_category_names(c: Category)
    ensures
        forall|i: int|
            0 <= i < category_name(c).len() ==> category_name(c)[i] != '"' && category_name(c)[i]
                != '\\',
        category_of_name(category_name(c)) == Some(c),
{
    reveal_strlit("None");
    reveal_strlit("Comedy");
    reveal_strlit("Music");
    assert("None"@.len() == 4);
    assert("Comedy"@.len() == 6);
    assert("Music"@.len() == 5);
}

/// The text after a record's opening literal and title, nested so that
/// each parsing step peels one layer without re-association.
pub open spec fn tail_after_title(s: ShowView, rest: Seq<char>) -> Seq<char> {
    ",\"date\":\""@ + (date_chars(s.date) + ("\",\"time\":\""@ + (time_chars(s.time) + (
    "\",\"category\":\""@ + (category_name(s.category) + (seq!['"'] + (seq!['}'] + rest)))))))
}

#[verifier::rlimit(100)]
#[verifier::spinoff_prover]
proof fn lemma_show_json_shape(s: ShowView, rest: Seq<char>)
    ensures
        show_json(s) + rest == "{\"title\":\""@ + (esc(s.title) + (seq!['"'] + tail_after_title(
            s,
            rest,
        ))),
{
    reveal_strlit("\",\"date\":\"");
    reveal_strlit(",\"date\":\"");
    reveal_strlit("\"}");
    assert("\",\"date\":\""@ =~= seq!['"'] + ",\"date\":\""@);
    assert("\"}"@ =~= seq!['"'] + seq!['}']);
    assert(show_json(s) + rest =~= "{\"title\":\""@ + (esc(s.title) + (seq!['"']
        + tail_after_title(s, rest))));
}

#[verifier::rlimit(100)]
#[verifier::spinoff_prover]
proof fn lemma_read_tail2(s: ShowView, rest: Seq<char>)
    ensures
        read_tail2(
            s.title,
            s.date,
            s.time,
            "\",\"category\":\""@ + (category_name(s.category) + (seq!['"'] + (seq!['}']
                + rest))),
        ) == Some((s, rest)),
{
    let t6 = category_name(s.category) + (seq!['"'] + (seq!['}'] + rest));
    lemma_expect_lit("\",\"category\":\""@, t6);
    lemma_category_names(s.category);
    lemma_esc_plain(category_name(s.category));
    assert(t6 =~= esc(category_name(s.category)) + seq!['"'] + (seq!['}'] + rest));
    lemma_unescape_esc(category_name(s.category), seq!['}'] + rest);
    let r8 = seq!['}'] + rest;
    assert(r8[0] == '}');
    assert(r8.drop_first() =~= rest);
}

#[verifier::rlimit(100)]
#[verifier::spinoff_prover]
proof fn lemma_read_tail1(s: ShowView, rest: Seq<char>)
    requires
        valid_time(s.time),
    ensures
        read_tail1(
            s.title,
            s.date,
            "\",\"time\":\""@ + (time_chars(s.time) + ("\",\"category\":\""@ + (category_name(
                s.category,
            ) + (seq!['"'] + (seq!['}'] + rest))))),
        ) == Some((s, rest)),
{
    let t4 = time_chars(s.time) + ("\",\"category\":\""@ + (category_name(s.category) + (
    seq!['"'] + (seq!['}'] + rest))));
    lemma_expect_lit("\",\"time\":\""@, t4);
    let t5 = "\",\"category\":\""@ + (category_name(s.category) + (seq!['"'] + (seq!['}']
        + rest)));
    lemma_read_time(s.time, t5);
    lemma_read_tail2(s, rest);
}

#[verifier::rlimit(100)]
#[verifier::spinoff_prover]
proof fn lemma_read_meta(s: ShowView, rest: Seq<char>)
    requires
        show_wf(s),
    ensures
        read_meta(s.title, tail_after_title(s, rest)) == Some((s, rest)),
{
    let t2 = date_chars(s.date) + ("\",\"time\":\""@ + (time_chars(s.time) + (
    "\",\"category\":\""@ + (category_name(s.category) + (seq!['"'] + (seq!['}'] + rest))))));
    lemma_expect_lit(",\"date\":\""@, t2);
    let t3 = "\",\"time\":\""@ + (time_chars(s.time) + ("\",\"category\":\""@ + (category_name(
        s.category,
    ) + (seq!['"'] + (seq!['}'] + rest)))));
    lemma_read_date(s.date, t3);
    lemma_read_tail1(s, rest);
}

#[verifier::rlimit(100)]
#[verifier::spinoff_prover]
proof fn lemma_read_show(s: ShowView, rest: Seq<char>)
    requires
        show_wf(s),
    ensures
        read_show(show_json(s) + rest) == Some((s, rest)),
{
    lemma_show_json_shape(s, rest);
    let t1 = tail_after_title(s, rest);
    let body = esc(s.title) + (seq!['"'] + t1);
    assert(body =~= esc(s.title) + seq!['"'] + t1);
    lemma_expect_lit("{\"title\":\""@, body);
    lemma_unescape_esc(s.title, t1);
    lemma_read_meta(s, rest);
}

/// The records of a non-empty list, seen from the front.
proof fn lemma_shows_json_first(shows: Seq<ShowView>)
    requires
        shows.len() >= 2,
    ensures
        shows_json(shows) == show_json(shows[0]) + seq![','] + shows_json(shows.drop_first()),
    decreases shows.len(),
{
    if shows.len() == 2 {
        assert(shows.drop_last() =~= seq![shows[0]]);
        assert(shows.drop_first() =~= seq![shows[1]]);
        assert(shows_json(seq![shows[0]]) == show_json(shows[0]));
        assert(shows_json(seq![shows[1]]) == show_json(shows[1]));
    } else {
        let dl = shows.drop_last();
        lemma_shows_json_first(dl);
        assert(dl.drop_first() =~= shows.drop_first().drop_last());
        assert(dl[0] == shows[0]);
        assert(shows.drop_first().len() >= 2);
        assert(shows.drop_first().last() == shows.last());
        assert(shows_json(shows.drop_first()) == shows_json(shows.drop_first().drop_last())
            + seq![','] + show_json(shows.last()));
        assert(shows_json(shows) =~= show_json(shows[0]) + seq![','] + shows_json(
            shows.drop_first(),
        ));
    }
}

proof fn lemma_show_json_len(s: ShowView)
    ensures
        show_json(s).len() >= 1,
        show_json(s)[0] == '{',
{
    reveal_strlit("{\"title\":\"");
}

#[verifier::rlimit(100)]
#[verifier::spinoff_prover]
proof fn lemma_cons_shape(shows: Seq<ShowView>, rest: Seq<char>)
    requires
        shows.len() >= 2,
    ensures
        shows_json(shows) + rest == show_json(shows[0]) + (seq![','] + (shows_json(
            shows.drop_first(),
        ) + rest)),
{
    lemma_shows_json_first(shows);
    assert(shows_json(shows) + rest =~= show_json(shows[0]) + (seq![','] + (shows_json(
        shows.drop_first(),
    ) + rest)));
}

#[verifier::rlimit(100)]
#[verifier::spinoff_prover]
proof fn lemma_read_shows(shows: Seq<ShowView>, rest: Seq<char>)
    requires
        shows.len() >= 1,
        forall|i: int| 0 <= i < shows.len() ==> show_wf(shows[i]),
        rest.len() == 0 || rest[0] != ',',
    ensures
        read_shows(shows_json(shows) + rest) == Some((shows, rest)),
    decreases shows.len(),
{
    let s = shows_json(shows) + rest;
    if shows.len() == 1 {
        lemma_read_show(shows[0], rest);
        assert(seq![shows[0]] =~= shows);
        if rest.len() >= 1 && rest[0] == ',' {
        } else {
            assert(read_shows(s) == Some((shows, rest)));
        }
    } else {
        lemma_cons_shape(shows, rest);
        let tail_json = shows_json(shows.drop_first());
        let r = seq![','] + (tail_json + rest);
        lemma_read_show(shows[0], r);
        assert(r[0] == ',');
        lemma_show_json_len(shows[0]);
        assert(r.len() < s.len());
        assert(r.drop_first() =~= tail_json + rest);
        assert forall|i: int| 0 <= i < shows.drop_first().len() implies show_wf(
            shows.drop_first()[i],
        ) by {
            assert(shows.drop_first()[i] == shows[i + 1]);
        }
        lemma_read_shows(shows.drop_first(), rest);
        assert(seq![shows[0]] + shows.drop_first() =~= shows);
    }
}

/// The round-trip law: loading the text that the codec writes for any
/// list of well-formed shows yields that list again, field for field.
pub proof fn lemma_snapshot_round_trip(shows: Seq<ShowView>)
    requires
        forall|i: int| 0 <= i < shows.len() ==> show_wf(shows[i]),
    ensures
        spec_load(snapshot_json(shows)) == Some(shows),
{
    let s = snapshot_json(shows);
    assert(s[0] == '[');
    let r = s.drop_first();
    assert(r =~= shows_json(shows) + seq![']']);
    if shows.len() == 0 {
        assert(r =~= seq![']']);
    } else {
        lemma_show_json_len(shows[0]);
        if shows.len() == 1 {
            assert(shows_json(shows) == show_json(shows[0]));
        } else {
            lemma_shows_json_first(shows);
        }
        assert(r[0] == '{');
        assert(!(r.len() == 1 && r[0] == ']'));
        lemma_read_shows(shows, seq![']']);
        assert(read_shows(r) == Some((shows, seq![']'])));
    }
}

/// The text of `v` from position `pos` on.
pub open spec fn suffix_of(v: Seq<char>, pos: int) -> Seq<char> {
    v.subrange(pos, v.len() as int)
}

proof fn lemma_esc_snoc(s: Seq<char>, c: char)
    ensures
        esc(s.push(c)) == esc(s) + esc_char(c),
    decreases s.len(),
{
    let p = s.push(c);
    if s.len() == 0 {
        assert(p[0] == c);
        assert(p.drop_first() =~= Seq::<char>::empty());
        assert(esc(Seq::<char>::empty()) =~= Seq::<char>::empty());
        assert(esc(p) =~= esc_char(c));
        assert(esc(s) + esc_char(c) =~= esc_char(c));
    } else {
        assert(p[0] == s[0]);
        assert(p.drop_first() =~= s.drop_first().push(c));
        lemma_esc_snoc(s.drop_first(), c);
        assert(esc(p) =~= esc(s) + esc_char(c));
    }
}

/// Appends the escaped form of the characters of `t`.
fn push_escaped(out: &mut Vec<char>, t: &Vec<char>)
    ensures
        final(out)@ == old(out)@ + esc(t@),
{
    let mut i: usize = 0;
    proof {
        assert(esc(t@.subrange(0, 0)) =~= Seq::<char>::empty());
        assert(out@ =~= old(out)@ + esc(t@.subrange(0, 0)));
    }
    while i < t.len()
        invariant
            i <= t@.len(),
            out@ == old(out)@ + esc(t@.subrange(0, i as int)),
        decreases t@.len() - i,
    {
        let c = t[i];
        proof {
            lemma_esc_snoc(t@.subrange(0, i as int), c);
            assert(t@.subrange(0, i + 1 as int) =~= t@.subrange(0, i as int).push(c));
        }
        if c == '"' || c == '\\' {
            out.push('\\');
            out.push(c);
        } else {
            out.push(c);
        }
        proof {
            assert(out@ =~= old(out)@ + esc(t@.subrange(0, i + 1 as int)));
        }
        i += 1;
    }
    proof {
        assert(t@.subrange(0, t@.len() as int) =~= t@);
    }
}

/// Writes the snapshot text for a list of well-formed shows.
#[verifier::rlimit(100)]
pub fn save_snapshot(shows: &Vec<Show>) -> (r: String)
    requires
        forall|i: int| 0 <= i < shows@.len() ==> show_wf(shows@[i]@),
    ensures
        r@ == snapshot_json(show_views(shows@)),
{
    let mut out: Vec<char> = Vec::new();
    out.push('[');
    proof {
        broadcast use crate::shows::lemma_show_views_len;

        assert(show_views(shows@.subrange(0, 0)) =~= Seq::<ShowView>::empty());
        assert(out@ =~= seq!['['] + shows_json(show_views(shows@.subrange(0, 0))));
    }
    let mut i: usize = 0;
    while i < shows.len()
        invariant
            i <= shows@.len(),
            forall|k: int| 0 <= k < shows@.len() ==> show_wf(shows@[k]@),
            out@ == seq!['['] + shows_json(show_views(shows@.subrange(0, i as int))),
        decreases shows@.len() - i,
    {
        let s = &shows[i];
        let ghost pv0 = show_views(shows@.subrange(0, i as int));
        if i > 0 {
            out.push(',');
        }
        let ghost base = out@;
        let mut l0 = to_char_vec("{\"title\":\"");
        out.append(&mut l0);
        let title_chars = to_char_vec(s.title.as_str());
        push_escaped(&mut out, &title_chars);
        proof {
            assert(out@ =~= base + "{\"title\":\""@ + esc(s@.title));
        }
        let mut l1 = to_char_vec("\",\"date\":\"");
        out.append(&mut l1);
        push_date_chars(&mut out, &s.date);
        proof {
            assert(out@ =~= base + "{\"title\":\""@ + esc(s@.title) + "\",\"date\":\""@
                + date_chars(s@.date));
        }
        let mut l2 = to_char_vec("\",\"time\":\"");
        out.append(&mut l2);
        push_time_chars(&mut out, &s.time);
        proof {
            assert(out@ =~= base + "{\"title\":\""@ + esc(s@.title) + "\",\"date\":\""@
                + date_chars(s@.date) + "\",\"time\":\""@ + time_chars(s@.time));
        }
        let mut l3 = to_char_vec("\",\"category\":\"");
        out.append(&mut l3);
        let mut nm = to_char_vec(s.category.name());
        out.append(&mut nm);
        let mut l4 = to_char_vec("\"}");
        out.append(&mut l4);
        proof {
            broadcast use crate::shows::lemma_show_views_len, crate::shows::lemma_show_views_index;

            assert(out@ =~= base + "{\"title\":\""@ + esc(s@.title) + "\",\"date\":\""@
                + date_chars(s@.date) + "\",\"time\":\""@ + time_chars(s@.time)
                + "\",\"category\":\""@ + category_name(s@.category) + "\"}"@);
            assert(out@ =~= base + show_json(s@));
            let pv1 = show_views(shows@.subrange(0, i + 1 as int));
            assert(pv1.drop_last() =~= pv0);
            assert(pv1.last() == shows@[i as int]@);
            if i == 0 {
                assert(shows_json(pv1) == show_json(pv1[0]));
                assert(pv1[0] == s@);
                assert(out@ =~= seq!['['] + shows_json(pv1));
            } else {
                assert(shows_json(pv1) == shows_json(pv0) + seq![','] + show_json(s@));
                assert(out@ =~= seq!['['] + shows_json(pv1));
            }
        }
        i += 1;
    }
    out.push(']');
    proof {
        assert(shows@.subrange(0, shows@.len() as int) =~= shows@);
        assert(out@ =~= snapshot_json(show_views(shows@)));
    }
    chars_to_string(&out)
}

/// Consumes the given literal at `pos`, if it is there.
fn expect_exec(v: &Vec<char>, pos: usize, lit: &str) -> (r: Option<usize>)
    requires
        pos <= v@.len(),
    ensures
        expect_lit(suffix_of(v@, pos as int), lit@) matches Some(rest) ==> (r matches Some(p)
            && pos <= p <= v@.len() && suffix_of(v@, p as int) == rest),
        expect_lit(suffix_of(v@, pos as int), lit@) is None ==> r is None,
{
    let litv = to_char_vec(lit);
    let n = litv.len();
    if v.len() - pos < n {
        return None;
    }
    let mut i: usize = 0;
    while i < n
        invariant
            n == litv@.len(),
            litv@ == lit@,
            pos + n <= v@.len(),
            v@.len() <= usize::MAX,
            i <= n,
            forall|j: int| 0 <= j < i ==> v@[pos + j] == litv@[j],
        decreases n - i,
    {
        if v[pos + i] != litv[i] {
            proof {
                assert(suffix_of(v@, pos as int).subrange(0, litv@.len() as int)[i as int]
                    == v@[pos + i]);
            }
            return None;
        }
        i += 1;
    }
    proof {
        assert(suffix_of(v@, pos as int).subrange(0, lit@.len() as int) =~= lit@);
        assert(suffix_of(v@, pos as int).subrange(
            lit@.len() as int,
            suffix_of(v@, pos as int).len() as int,
        ) =~= suffix_of(v@, pos + n as int));
    }
    Some(pos + n)
}

/// Reads two digits at `pos`.
fn read2_exec(v: &Vec<char>, pos: usize) -> (r: Option<(u32, usize)>)
    requires
        pos <= v@.len(),
    ensures
        read2(suffix_of(v@, pos as int)) matches Some(p) ==> (r matches Some(q) && q.0 == p.0
            && pos < q.1 <= v@.len() && suffix_of(v@, q.1 as int) == p.1),
        read2(suffix_of(v@, pos as int)) is None ==> r is None,
{
    if v.len() - pos < 2 {
        return None;
    }
    let c0 = v[pos];
    let c1 = v[pos + 1];
    if !is_digit(c0) || !is_digit(c1) {
        return None;
    }
    proof {
        assert(suffix_of(v@, pos as int)[0] == c0);
        assert(suffix_of(v@, pos as int)[1] == c1);
        assert(suffix_of(v@, pos as int).subrange(2, suffix_of(v@, pos as int).len() as int)
            =~= suffix_of(v@, pos + 2 as int));
    }
    Some(((c0 as u32 - 48) * 10 + (c1 as u32 - 48), pos + 2))
}

/// Reads four digits at `pos`.
fn read4_exec(v: &Vec<char>, pos: usize) -> (r: Option<(u32, usize)>)
    requires
        pos <= v@.len(),
    ensures
        read4(suffix_of(v@, pos as int)) matches Some(p) ==> (r matches Some(q) && q.0 == p.0
            && pos < q.1 <= v@.len() && suffix_of(v@, q.1 as int) == p.1),
        read4(suffix_of(v@, pos as int)) is None ==> r is None,
{
    if v.len() - pos < 4 {
        return None;
    }
    let c0 = v[pos];
    let c1 = v[pos + 1];
    let c2 = v[pos + 2];
    let c3 = v[pos + 3];
    if !is_digit(c0) || !is_digit(c1) || !is_digit(c2) || !is_digit(c3) {
        return None;
    }
    proof {
        assert(suffix_of(v@, pos as int)[0] == c0);
        assert(suffix_of(v@, pos as int)[1] == c1);
        assert(suffix_of(v@, pos as int)[2] == c2);
        assert(suffix_of(v@, pos as int)[3] == c3);
        assert(suffix_of(v@, pos as int).subrange(4, suffix_of(v@, pos as int).len() as int)
            =~= suffix_of(v@, pos + 4 as int));
    }
    Some(
        ((c0 as u32 - 48) * 1000 + (c1 as u32 - 48) * 100 + (c2 as u32 - 48) * 10 + (c3 as u32
            - 48), pos + 4),
    )
}

/// Reads an escaped string up to its closing quote, starting at `pos`.
fn unescape_exec(v: &Vec<char>, pos: usize) -> (r: Option<(Vec<char>, usize)>)
    requires
        pos <= v@.len(),
    ensures
        unescape_to(suffix_of(v@, pos as int)) matches Some(p) ==> (r matches Some(q) && q.0@
            == p.0 && pos < q.1 <= v@.len() && suffix_of(v@, q.1 as int) == p.1),
        unescape_to(suffix_of(v@, pos as int)) is None ==> r is None,
    decreases v@.len() - pos,
{
    let n = v.len();
    if pos >= n {
        return None;
    }
    let c = v[pos];
    proof {
        assert(suffix_of(v@, pos as int)[0] == c);
    }
    if c == '"' {
        proof {
            assert(suffix_of(v@, pos as int).drop_first() =~= suffix_of(v@, pos + 1 as int));
        }
        return Some((Vec::new(), pos + 1));
    }
    if c == '\\' {
        if pos + 1 < n {
            let c2 = v[pos + 1];
            proof {
                assert(suffix_of(v@, pos as int)[1] == c2);
            }
            if c2 == '"' || c2 == '\\' {
                proof {
                    assert(suffix_of(v@, pos as int).subrange(
                        2,
                        suffix_of(v@, pos as int).len() as int,
                    ) =~= suffix_of(v@, pos + 2 as int));
                }
                match unescape_exec(v, pos + 2) {
                    Some((content, p2)) => {
                        let ghost c0 = content@;
                        let mut content = content;
                        content.insert(0, c2);
                        proof {
                            assert(content@ =~= seq![c2] + c0);
                        }
                        return Some((content, p2));
                    },
                    None => {
                        return None;
                    },
                }
            }
        }
        return None;
    }
    proof {
        assert(suffix_of(v@, pos as int).drop_first() =~= suffix_of(v@, pos + 1 as int));
    }
    match unescape_exec(v, pos + 1) {
        Some((content, p2)) => {
            let ghost c0 = content@;
            let mut content = content;
            content.insert(0, c);
            proof {
                assert(content@ =~= seq![c] + c0);
            }
            Some((content, p2))
        },
        None => None,
    }
}

/// The category a stored tag names, if any.
fn category_lookup(name: &Vec<char>) -> (r: Option<Category>)
    ensures
        r == category_of_name(name@),
{
    if char_vec_eq(name, &to_char_vec("None")) {
        Some(Category::Unassigned)
    } else if char_vec_eq(name, &to_char_vec("Comedy")) {
        Some(Category::Comedy)
    } else if char_vec_eq(name, &to_char_vec("Music")) {
        Some(Category::Music)
    } else {
        None
    }
}

/// Reads one record at `pos`.
#[verifier::rlimit(100)]
#[verifier::spinoff_prover]
fn read_show_exec(v: &Vec<char>, pos: usize) -> (r: Option<(Show, usize)>)
    requires
        pos <= v@.len(),
    ensures
        read_show(suffix_of(v@, pos as int)) matches Some(p) ==> (r matches Some(q) && q.0@
            == p.0 && pos < q.1 <= v@.len() && suffix_of(v@, q.1 as int) == p.1),
        read_show(suffix_of(v@, pos as int)) is None ==> r is None,
{
    let p1 = match expect_exec(v, pos, "{\"title\":\"") {
        Some(p) => p,
        None => {
            return None;
        },
    };
    let (title, p2) = match unescape_exec(v, p1) {
        Some(q) => q,
        None => {
            return None;
        },
    };
    let p3 = match expect_exec(v, p2, ",\"date\":\"") {
        Some(p) => p,
        None => {
            return None;
        },
    };
    let (y, p4a) = match read4_exec(v, p3) {
        Some(q) => q,
        None => {
            return None;
        },
    };
    if p4a >= v.len() || v[p4a] != '-' {
        proof {
            if p4a < v@.len() {
                assert(suffix_of(v@, p4a as int)[0] == v@[p4a as int]);
            }
        }
        return None;
    }
    proof {
        assert(suffix_of(v@, p4a as int)[0] == '-');
        assert(suffix_of(v@, p4a as int).drop_first() =~= suffix_of(v@, p4a + 1 as int));
    }
    let (mo, p4b) = match read2_exec(v, p4a + 1) {
        Some(q) => q,
        None => {
            return None;
        },
    };
    if p4b >= v.len() || v[p4b] != '-' {
        proof {
            if p4b < v@.len() {
                assert(suffix_of(v@, p4b as int)[0] == v@[p4b as int]);
            }
        }
        return None;
    }
    proof {
        assert(suffix_of(v@, p4b as int)[0] == '-');
        assert(suffix_of(v@, p4b as int).drop_first() =~= suffix_of(v@, p4b + 1 as int));
    }
    let (dy, p4) = match read2_exec(v, p4b + 1) {
        Some(q) => q,
        None => {
            return None;
        },
    };
    let date = match make_date(y, mo, dy) {
        Some(d) => d,
        None => {
            return None;
        },
    };
    let p5 = match expect_exec(v, p4, "\",\"time\":\"") {
        Some(p) => p,
        None => {
            return None;
        },
    };
    let (hh, p6a) = match read2_exec(v, p5) {
        Some(q) => q,
        None => {
            return None;
        },
    };
    if p6a >= v.len() || v[p6a] != ':' {
        proof {
            if p6a < v@.len() {
                assert(suffix_of(v@, p6a as int)[0] == v@[p6a as int]);
            }
        }
        return None;
    }
    proof {
        assert(suffix_of(v@, p6a as int)[0] == ':');
        assert(suffix_of(v@, p6a as int).drop_first() =~= suffix_of(v@, p6a + 1 as int));
    }
    let (mm, p6b) = match read2_exec(v, p6a + 1) {
        Some(q) => q,
        None => {
            return None;
        },
    };
    if p6b >= v.len() || v[p6b] != ':' {
        proof {
            if p6b < v@.len() {
                assert(suffix_of(v@, p6b as int)[0] == v@[p6b as int]);
            }
        }
        return None;
    }
    proof {
        assert(suffix_of(v@, p6b as int)[0] == ':');
        assert(suffix_of(v@, p6b as int).drop_first() =~= suffix_of(v@, p6b + 1 as int));
    }
    let (ss, p6) = match read2_exec(v, p6b + 1) {
        Some(q) => q,
        None => {
            return None;
        },
    };
    if !(hh < 24 && mm < 60 && ss < 60) {
        return None;
    }
    let time = Time { hour: hh as u8, minute: mm as u8, second: ss as u8 };
    let p7 = match expect_exec(v, p6, "\",\"category\":\"") {
        Some(p) => p,
        None => {
            return None;
        },
    };
    let (name, p8) = match unescape_exec(v, p7) {
        Some(q) => q,
        None => {
            return None;
        },
    };
    let category = match category_lookup(&name) {
        Some(c) => c,
        None => {
            return None;
        },
    };
    if p8 >= v.len() || v[p8] != '}' {
        proof {
            if p8 < v@.len() {
                assert(suffix_of(v@, p8 as int)[0] == v@[p8 as int]);
            }
        }
        return None;
    }
    proof {
        assert(suffix_of(v@, p8 as int)[0] == '}');
        assert(suffix_of(v@, p8 as int).drop_first() =~= suffix_of(v@, p8 + 1 as int));
    }
    let show = Show { title: chars_to_string(&title), date, time, category };
    proof {
        assert(show@.title == title@);
    }
    Some((show, p8 + 1))
}

/// Reads one or more comma-separated records at `pos`.
fn read_shows_exec(v: &Vec<char>, pos: usize) -> (r: Option<(Vec<Show>, usize)>)
    requires
        pos <= v@.len(),
    ensures
        read_shows(suffix_of(v@, pos as int)) matches Some(p) ==> (r matches Some(q)
            && show_views(q.0@) == p.0 && pos < q.1 <= v@.len() && suffix_of(v@, q.1 as int)
            == p.1),
        read_shows(suffix_of(v@, pos as int)) is None ==> r is None,
    decreases v@.len() - pos,
{
    let (show, p1) = match read_show_exec(v, pos) {
        Some(q) => q,
        None => {
            return None;
        },
    };
    if p1 < v.len() && v[p1] == ',' {
        proof {
            assert(suffix_of(v@, p1 as int)[0] == ',');
            assert(suffix_of(v@, p1 as int).len() < suffix_of(v@, pos as int).len());
            assert(suffix_of(v@, p1 as int).drop_first() =~= suffix_of(v@, p1 + 1 as int));
        }
        match read_shows_exec(v, p1 + 1) {
            Some((rest_shows, p2)) => {
                let ghost r0 = rest_shows@;
                let mut rest_shows = rest_shows;
                rest_shows.insert(0, show);
                proof {
                    broadcast use crate::shows::lemma_show_views_len, crate::shows::lemma_show_views_index;

                    assert(show_views(rest_shows@) =~= seq![show@] + show_views(r0));
                }
                Some((rest_shows, p2))
            },
            None => None,
        }
    } else {
        proof {
            if p1 < v@.len() {
                assert(suffix_of(v@, p1 as int)[0] == v@[p1 as int]);
            }
        }
        let mut out: Vec<Show> = Vec::new();
        out.push(show);
        proof {
            broadcast use crate::shows::lemma_show_views_len, crate::shows::lemma_show_views_index;

            assert(show_views(out@) =~= seq![show@]);
        }
        Some((out, p1))
    }
}

/// Reads snapshot text back into the list of shows it encodes; `None`
/// where the text is not exactly a snapshot this codec writes.
pub fn load_snapshot(s: &str) -> (r: Option<Vec<Show>>)
    ensures
        spec_load(s@) matches Some(shows) ==> (r matches Some(v) && show_views(v@) == shows),
        spec_load(s@) is None ==> r is None,
{
    let v = to_char_vec(s);
    if v.len() == 0 || v[0] != '[' {
        return None;
    }
    proof {
        assert(s@.drop_first() =~= suffix_of(v@, 1));
    }
    if v.len() == 2 && v[1] == ']' {
        proof {
            assert(s@.drop_first().len() == 1);
            assert(s@.drop_first()[0] == ']');
            assert(show_views(Seq::<Show>::empty()) =~= Seq::<ShowView>::empty());
        }
        return Some(Vec::new());
    }
    proof {
        if s@.drop_first().len() == 1 && s@.drop_first()[0] == ']' {
            assert(v@[1] == ']');
            assert(v@.len() == 2);
        }
    }
    match read_shows_exec(&v, 1) {
        Some((shows, p)) => {
            if v.len() - p == 1 && v[p] == ']' {
                proof {
                    assert(suffix_of(v@, p as int).len() == 1);
                    assert(suffix_of(v@, p as int)[0] == ']');
                }
                Some(shows)
            } else {
                proof {
                    if p < v@.len() {
                        assert(suffix_of(v@, p as int)[0] == v@[p as int]);
                    }
                }
                None
            }
        },
        None => None,
    }
}

} // verus!
