//! The data model: categories with their registry of source endpoints,
//! and the show record with its view, equality, and well-formedness.
use vstd::prelude::*;

use crate::dates::{
    date_chars, push_date_chars, push_time_chars, sentinel_date, sentinel_time, time_chars,
    valid_date, valid_time, Date, Time,
};
use crate::errors::ConfigError;
use crate::text::{chars_to_string, to_char_vec};

verus! {

/// A kind of event listing. `None` is a sentinel default, used only as
/// a placeholder before a category is assigned.
#[derive(Clone, Copy, PartialEq, Eq, Structural, Debug, Hash)]
pub enum Category {
    Unassigned,
    Comedy,
    Music,
}

/// The display name of a category.
pub open spec fn category_name(c: Category) -> Seq<char> {
    match c {
        Category::Unassigned => "None"@,
        Category::Comedy => "Comedy"@,
        Category::Music => "Music"@,
    }
}

/// The source endpoint of a category, if one is registered; the `None`
/// sentinel has no endpoint.
pub open spec fn endpoint_url(c: Category) -> Option<Seq<char>> {
    match c {
        Category::Unassigned => None,
        Category::Comedy => Some(
            "https://htma.smarticket.co.il/%D7%91%D7%99%D7%93%D7%95%D7%A8"@,
        ),
        Category::Music => Some(
            "https://htma.smarticket.co.il/%D7%9E%D7%95%D7%A1%D7%99%D7%A7%D7%94"@,
        ),
    }
}

impl Category {
    /// The stable display name, as used in the persisted snapshot.
    pub fn name(&self) -> (r: &'static str)
        ensures
            r@ == category_name(*self),
    {
        match self {
            Category::Unassigned => "None",
            Category::Comedy => "Comedy",
            Category::Music => "Music",
        }
    }
}

/// Looks a category up in the registry of source endpoints.
pub fn get_url(category: Category) -> (r: Result<&'static str, ConfigError>)
    ensures
        endpoint_url(category) matches Some(u) ==> (r matches Ok(s) && s@ == u),
        endpoint_url(category) is None ==> r == Err::<&'static str, ConfigError>(
            ConfigError::CategoryNotFound,
        ),
{
    match category {
        Category::Comedy => Ok("https://htma.smarticket.co.il/%D7%91%D7%99%D7%93%D7%95%D7%A8"),
        Category::Music => Ok("https://htma.smarticket.co.il/%D7%9E%D7%95%D7%A1%D7%99%D7%A7%D7%94"),
        Category::Unassigned => Err(ConfigError::CategoryNotFound),
    }
}

/// One structured event record.
#[derive(Debug, Clone)]
pub struct Show {
    pub title: String,
    pub date: Date,
    pub time: Time,
    pub category: Category,
}

/// The mathematical value of a show: its title as a character sequence
/// together with the three plain fields.
#[verifier::ext_equal]
pub struct ShowView {
    pub title: Seq<char>,
    pub date: Date,
    pub time: Time,
    pub category: Category,
}

impl View for Show {
    type V = ShowView;

    open spec fn view(&self) -> ShowView {
        ShowView { title: self.title@, date: self.date, time: self.time, category: self.category }
    }
}

impl PartialEq for Show {
    /// Structural equality: all four fields equal.
    fn eq(&self, other: &Show) -> (r: bool) {
        let r = self.title == other.title && self.date == other.date && self.time == other.time
            && self.category == other.category;
        proof {
            if r {
                assert(self@ =~= other@);
            }
        }
        r
    }
}

impl vstd::std_specs::cmp::PartialEqSpecImpl for Show {
    open spec fn obeys_eq_spec() -> bool {
        true
    }

    open spec fn eq_spec(&self, other: &Show) -> bool {
        self@ == other@
    }
}

/// The sentinel record used as a base before extraction fills fields in.
pub open spec fn default_show_view() -> ShowView {
    ShowView {
        title: Seq::empty(),
        date: sentinel_date(),
        time: sentinel_time(),
        category: Category::Unassigned,
    }
}

/// Well-formed shows carry a valid calendar date and time of day.
pub open spec fn show_wf(s: ShowView) -> bool {
    valid_date(s.date) && valid_time(s.time)
}

/// The status line printed for one show.
pub open spec fn show_display(s: ShowView) -> Seq<char> {
    "Title: "@ + s.title + ", Date: "@ + date_chars(s.date) + ", Time: "@ + time_chars(s.time)
        + ", Category: "@ + category_name(s.category)
}

/// The views of a sequence of shows.
pub open spec fn show_views(s: Seq<Show>) -> Seq<ShowView> {
    s.map_values(|x: Show| x@)
}

pub broadcast proof fn lemma_show_views_len(s: Seq<Show>)
    ensures
        (#[trigger] show_views(s)).len() == s.len(),
{
}

pub broadcast proof fn lemma_show_views_index(s: Seq<Show>, i: int)
    requires
        0 <= i < s.len(),
    ensures
        #[trigger] show_views(s)[i] == s[i]@,
{
}

impl Show {
    /// The base record: empty title, 1970-01-01, 00:00:00, no category.
    pub fn default() -> (r: Show)
        ensures
            r@ == default_show_view(),
    {
        let r = Show {
            title: String::new(),
            date: Date { year: 1970, month: 1, day: 1 },
            time: Time { hour: 0, minute: 0, second: 0 },
            category: Category::Unassigned,
        };
        proof {
            assert(r@ =~= default_show_view());
        }
        r
    }

    /// Renders the record for a status line, per [`show_display`].
    pub fn display_line(&self) -> (r: String)
        requires
            show_wf(self@),
        ensures
            r@ == show_display(self@),
    {
        let mut out = to_char_vec("Title: ");
        let mut title = to_char_vec(self.title.as_str());
        out.append(&mut title);
        proof {
            assert(out@ =~= "Title: "@ + self@.title);
        }
        let mut d_lbl = to_char_vec(", Date: ");
        out.append(&mut d_lbl);
        push_date_chars(&mut out, &self.date);
        proof {
            assert(out@ =~= "Title: "@ + self@.title + ", Date: "@ + date_chars(self@.date));
        }
        let mut t_lbl = to_char_vec(", Time: ");
        out.append(&mut t_lbl);
        push_time_chars(&mut out, &self.time);
        proof {
            assert(out@ =~= "Title: "@ + self@.title + ", Date: "@ + date_chars(self@.date)
                + ", Time: "@ + time_chars(self@.time));
        }
        let mut c_lbl = to_char_vec(", Category: ");
        out.append(&mut c_lbl);
        let mut c_name = to_char_vec(self.category.name());
        out.append(&mut c_name);
        proof {
            assert(out@ =~= show_display(self@));
        }
        chars_to_string(&out)
    }

    /// A copy equal to this record.
    pub fn duplicate(&self) -> (r: Show)
        ensures
            r == *self,
    {
        Show {
            title: self.title.clone(),
            date: self.date,
            time: self.time,
            category: self.category,
        }
    }
}

/// Whether every show in the sequence is well-formed.
pub fn shows_valid(v: &Vec<Show>) -> (r: bool)
    ensures
        r == forall|i: int| 0 <= i < v@.len() ==> show_wf(v@[i]@),
{
    let mut i: usize = 0;
    while i < v.len()
        invariant
            i <= v@.len(),
            forall|j: int| 0 <= j < i ==> show_wf(v@[j]@),
        decreases v@.len() - i,
    {
        let s = &v[i];
        let date_ok = s.date.year <= 9999 && 1 <= s.date.month && s.date.month <= 12 && 1
            <= s.date.day && {
            let leap = (s.date.year % 4 == 0 && s.date.year % 100 != 0) || s.date.year % 400 == 0;
            let max_day: u8 = if s.date.month == 2 {
                if leap {
                    29
                } else {
                    28
                }
            } else if s.date.month == 4 || s.date.month == 6 || s.date.month == 9 || s.date.month
                == 11 {
                30
            } else {
                31
            };
            s.date.day <= max_day
        };
        let time_ok = s.time.hour < 24 && s.time.minute < 60 && s.time.second < 60;
        if !(date_ok && time_ok) {
            return false;
        }
        i += 1;
    }
    true
}

} // verus!
