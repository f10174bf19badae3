//! Text building: decimal rendering of ids and counts, the menu labels,
//! and the two lines of a practice card.

use vstd::prelude::*;
use vstd::string::StringExecFns;

use crate::store::{HskLevel, Mission};
use crate::nav::{MenuOption, MenuState};

verus! {

/// Relies on the standard library's `String::push`: appends the given
/// character to the end of the string.
pub assume_specification[ String::push ](s: &mut String, c: char)
    ensures
        final(s)@ == old(s)@.push(c),
;

/// The character of one decimal digit.
pub open spec fn digit_char(d: int) -> char {
    if d == 0 {
        '0'
    } else if d == 1 {
        '1'
    } else if d == 2 {
        '2'
    } else if d == 3 {
        '3'
    } else if d == 4 {
        '4'
    } else if d == 5 {
        '5'
    } else if d == 6 {
        '6'
    } else if d == 7 {
        '7'
    } else if d == 8 {
        '8'
    } else {
        '9'
    }
}

/// The decimal rendering of a number, most significant digit first, with
/// no sign and no leading zero (a lone zero for 0).
pub open spec fn dec_str(n: nat) -> Seq<char>
    decreases n,
{
    if n < 10 {
        seq![digit_char(n as int)]
    } else {
        dec_str(n / 10) + seq![digit_char((n % 10) as int)]
    }
}

pub(crate) fn digit_of(d: usize) -> (c: char)
    requires
        d < 10,
    ensures
        c == digit_char(d as int),
{
    match d {
        0 => '0',
        1 => '1',
        2 => '2',
        3 => '3',
        4 => '4',
        5 => '5',
        6 => '6',
        7 => '7',
        8 => '8',
        _ => '9',
    }
}

/// The decimal rendering of a count or index, as a string.
pub fn usize_dec_string(n: usize) -> (r: String)
    ensures
        r@ == dec_str(n as nat),
    decreases n,
{
    if n < 10 {
        let mut s = String::new();
        s.push(digit_of(n));
        s
    } else {
        let mut s = usize_dec_string(n / 10);
        s.push(digit_of(n % 10));
        s
    }
}

/// The decimal rendering of a non-negative id, as a string.
pub fn id_dec_string(v: i8) -> (r: String)
    requires
        v >= 0,
    ensures
        r@ == dec_str(v as nat),
{
    usize_dec_string(v as usize)
}

impl HskLevel {
    /// The level's menu label.
    pub fn label(&self) -> (r: String)
        requires
            self.level >= 0,
        ensures
            r@ == "HSK Level "@ + dec_str(self.level as nat),
    {
        let mut s = String::from_str("HSK Level ");
        let num = id_dec_string(self.level);
        s.append(num.as_str());
        s
    }
}

impl Mission {
    /// The mission's menu label.
    pub fn label(&self) -> (r: String)
        requires
            self.id >= 0,
        ensures
            r@ == "Mission "@ + dec_str(self.id as nat),
    {
        let mut s = String::from_str("Mission ");
        let num = id_dec_string(self.id);
        s.append(num.as_str());
        s
    }
}

impl MenuState {
    /// The prompt shown above the option list.
    pub fn label(&self) -> (r: String)
        ensures
            r@ == match *self {
                MenuState::HskLevel => "HSK Level Selection"@,
                MenuState::Mission(l) => "Missions for HSK Level: "@ + dec_str(l as nat),
            },
    {
        match *self {
            MenuState::HskLevel => String::from_str("HSK Level Selection"),
            MenuState::Mission(l) => {
                let mut s = String::from_str("Missions for HSK Level: ");
                let num = usize_dec_string(l);
                s.append(num.as_str());
                s
            },
        }
    }
}

impl MenuOption {
    /// The option's display text.
    pub fn label(&self) -> (r: String)
        requires
            *self matches MenuOption::HskLevel(id) ==> id >= 0,
            *self matches MenuOption::Mission(mid, _) ==> mid >= 0,
        ensures
            r@ == match *self {
                MenuOption::Back => "<< Back"@,
                MenuOption::Exit => "Exit"@,
                MenuOption::HskLevel(id) => "HSK Level "@ + dec_str(id as nat),
                MenuOption::Mission(mid, _) => "Mission "@ + dec_str(mid as nat),
                MenuOption::SavedTerms => "Saved Terms"@,
            },
    {
        match *self {
            MenuOption::Back => String::from_str("<< Back"),
            MenuOption::Exit => String::from_str("Exit"),
            MenuOption::HskLevel(id) => {
                let mut s = String::from_str("HSK Level ");
                let num = id_dec_string(id);
                s.append(num.as_str());
                s
            },
            MenuOption::Mission(mid, _) => {
                let mut s = String::from_str("Mission ");
                let num = id_dec_string(mid);
                s.append(num.as_str());
                s
            },
            MenuOption::SavedTerms => String::from_str("Saved Terms"),
        }
    }
}

/// The header line of a practice card, from the two context labels.
pub open spec fn card_header_spec(lvl: Seq<char>, mission: Seq<char>) -> Seq<char> {
    "HSK Level "@ + lvl + " - Mission "@ + mission
}

/// Build the header line of a practice card.
pub fn card_header(lvl_id: &str, mission_id: &str) -> (r: String)
    ensures
        r@ == card_header_spec(lvl_id@, mission_id@),
{
    let mut s = String::from_str("HSK Level ");
    s.append(lvl_id);
    s.append(" - Mission ");
    s.append(mission_id);
    s
}

/// The suffix that marks a saved term.
pub open spec fn saved_suffix_spec(saved: bool) -> Seq<char> {
    if saved {
        " [Saved]"@
    } else {
        ""@
    }
}

/// The body line of a practice card: the 1-based position of the cursor,
/// the deck size, the shown face and the saved marker.
pub open spec fn card_body_spec(index: int, count: int, term: Seq<char>, saved: bool) -> Seq<char> {
    "Term ("@ + dec_str((index + 1) as nat) + "/"@ + dec_str(count as nat) + ") "@ + term + " "@
        + saved_suffix_spec(saved)
}

/// Build the body line of a practice card.
pub fn card_body(index: usize, count: usize, term: &str, saved: bool) -> (r: String)
    requires
        index < count,
    ensures
        r@ == card_body_spec(index as int, count as int, term@, saved),
{
    let mut s = String::from_str("Term (");
    let num = usize_dec_string(index + 1);
    s.append(num.as_str());
    s.append("/");
    let cnt = usize_dec_string(count);
    s.append(cnt.as_str());
    s.append(") ");
    s.append(term);
    s.append(" ");
    if saved {
        s.append(" [Saved]");
    }
    proof {
        reveal_strlit("");
        assert(s@ =~= card_body_spec(index as int, count as int, term@, saved));
    }
    s
}

} // verus!
