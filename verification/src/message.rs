//! The notification formatter: renders the new shows into the message
//! text that the external notifier delivers.
use vstd::prelude::*;

use crate::dates::{date_chars, push_date_chars, push_time_chars, time_chars};
use crate::shows::{show_views, show_wf, Show, ShowView};
use crate::text::{chars_to_string, to_char_vec};

verus! {

/// The header line of every notification.
pub open spec fn header_chars() -> Seq<char> {
    "*הופעות חדשות*:"@
}

/// The line rendered for one new show.
pub open spec fn show_line(s: ShowView) -> Seq<char> {
    s.title + " -> "@ + date_chars(s.date) + " ("@ + time_chars(s.time) + ")"@
}

/// One line per show, each preceded by the line separator.
pub open spec fn message_lines(shows: Seq<ShowView>) -> Seq<char>
    decreases shows.len(),
{
    if shows.len() == 0 {
        Seq::empty()
    } else {
        message_lines(shows.drop_last()) + seq!['\n'] + show_line(shows.last())
    }
}

/// The whole message: the header, then one line per new show.
pub open spec fn message_chars(shows: Seq<ShowView>) -> Seq<char> {
    header_chars() + message_lines(shows)
}

/// Renders the message for a list of new shows: the header line, then
/// one line per show formatted as `<title> -> <date> (<time>)`.
pub fn format_notification(new_shows: &Vec<Show>) -> (r: String)
    requires
        forall|i: int| 0 <= i < new_shows@.len() ==> show_wf(new_shows@[i]@),
    ensures
        r@ == message_chars(show_views(new_shows@)),
{
    let mut out = to_char_vec("*הופעות חדשות*:");
    proof {
        assert(show_views(new_shows@.subrange(0, 0)) =~= Seq::<ShowView>::empty());
        assert(out@ =~= header_chars() + message_lines(show_views(new_shows@.subrange(0, 0))));
    }
    let mut i: usize = 0;
    while i < new_shows.len()
        invariant
            i <= new_shows@.len(),
            forall|k: int| 0 <= k < new_shows@.len() ==> show_wf(new_shows@[k]@),
            out@ == header_chars() + message_lines(show_views(new_shows@.subrange(0, i as int))),
        decreases new_shows@.len() - i,
    {
        let s = &new_shows[i];
        let ghost pv0 = show_views(new_shows@.subrange(0, i as int));
        out.push('\n');
        proof {
            assert(out@ =~= header_chars() + message_lines(pv0) + seq!['\n']);
        }
        let mut title = to_char_vec(s.title.as_str());
        out.append(&mut title);
        proof {
            assert(out@ =~= header_chars() + message_lines(pv0) + seq!['\n'] + s@.title);
        }
        let mut arrow = to_char_vec(" -> ");
        out.append(&mut arrow);
        proof {
            assert(out@ =~= header_chars() + message_lines(pv0) + seq!['\n'] + s@.title
                + " -> "@);
        }
        push_date_chars(&mut out, &s.date);
        proof {
            assert(out@ =~= header_chars() + message_lines(pv0) + seq!['\n'] + s@.title + " -> "@
                + date_chars(s@.date));
        }
        let mut open_paren = to_char_vec(" (");
        out.append(&mut open_paren);
        push_time_chars(&mut out, &s.time);
        out.push(')');
        proof {
            broadcast use crate::shows::lemma_show_views_len, crate::shows::lemma_show_views_index;

            reveal_strlit(")");
            assert(")"@ =~= seq![')']);
            assert(out@ =~= header_chars() + message_lines(pv0) + seq!['\n'] + s@.title + " -> "@
                + date_chars(s@.date) + " ("@ + time_chars(s@.time) + ")"@);
            let pv1 = show_views(new_shows@.subrange(0, i + 1 as int));
            assert(pv1.drop_last() =~= pv0);
            assert(pv1.last() == new_shows@[i as int]@);
            let t = pv1.last();
            assert(t == s@);
            assert(message_lines(pv1) == message_lines(pv0) + seq!['\n'] + show_line(t));
            assert(show_line(t) == t.title + " -> "@ + date_chars(t.date) + " ("@ + time_chars(
                t.time,
            ) + ")"@);
            assert(out@ =~= header_chars() + message_lines(pv1));
        }
        i += 1;
    }
    proof {
        assert(new_shows@.subrange(0, new_shows@.len() as int) =~= new_shows@);
    }
    chars_to_string(&out)
}

} // verus!
