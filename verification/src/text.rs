use vstd::prelude::*;
use vstd::string::StrSliceExecFns;
use vstd::string::StringExecFns;
use crate::tables::GameError;

verus! {

/// Unicode's White_Space property, the whitespace that `char::is_whitespace`
/// and `str::trim` go by: U+0009 to U+000D, U+0020, U+0085, U+00A0, U+1680,
/// U+2000 to U+200A, U+2028, U+2029, U+202F, U+205F and U+3000.
pub open spec fn white_space(c: char) -> bool {
    let x = c as u32;
    ||| 9 <= x <= 13
    ||| x == 32
    ||| x == 0x85
    ||| x == 0xA0
    ||| x == 0x1680
    ||| 0x2000 <= x <= 0x200A
    ||| x == 0x2028
    ||| x == 0x2029
    ||| x == 0x202F
    ||| x == 0x205F
    ||| x == 0x3000
}

/// Does the character have the White_Space property?
pub fn is_white_space(c: char) -> (b: bool)
    ensures
        b == white_space(c),
{
    let x = c as u32;
    (9 <= x && x <= 13) || x == 32 || x == 0x85 || x == 0xA0 || x == 0x1680 || (0x2000 <= x && x
        <= 0x200A) || x == 0x2028 || x == 0x2029 || x == 0x202F || x == 0x205F || x == 0x3000
}

/// A name is blank when trimming its surrounding whitespace leaves nothing,
/// that is, when every character is whitespace.
pub open spec fn blank(s: Seq<char>) -> bool {
    forall|i: int| 0 <= i < s.len() ==> white_space(#[trigger] s[i])
}

/// Is the text empty once surrounding whitespace is trimmed?
pub fn is_blank(s: &String) -> (b: bool)
    ensures
        b == blank(s@),
{
    let t = s.as_str();
    let n = t.unicode_len();
    let mut i: usize = 0;
    while i < n
        invariant
            0 <= i <= n,
            n == t@.len(),
            t@ == s@,
            forall|j: int| 0 <= j < i ==> white_space(#[trigger] s@[j]),
        decreases n - i,
    {
        let c = t.get_char(i);
        if !is_white_space(c) {
            return false;
        }
        i = i + 1;
    }
    true
}

/// The team of a seat: even seats play for "A", odd seats for "B".
pub open spec fn team_of_seat(seat: u8) -> Seq<char> {
    if seat % 2 == 0 {
        seq!['A']
    } else {
        seq!['B']
    }
}

/// Assign team based on seat: seats 0,2 → "A", seats 1,3 → "B".
pub fn team_for_seat(seat: u8) -> (team: String)
    ensures
        team@ == team_of_seat(seat),
{
    if seat % 2 == 0 {
        let t = "A".to_string();
        proof {
            reveal_strlit("A");
        }
        t
    } else {
        let t = "B".to_string();
        proof {
            reveal_strlit("B");
        }
        t
    }
}

/// Is this the team name "A"?
pub fn is_team_a(team: &String) -> (b: bool)
    ensures
        b == (team@ == seq!['A']),
{
    let t = team.as_str();
    if t.unicode_len() != 1 {
        return false;
    }
    let c = t.get_char(0);
    if c == 'A' {
        assert(team@ =~= seq!['A']);
        true
    } else {
        false
    }
}

/// The decimal digit character of `d` (for `d < 10`).
pub open spec fn digit_char(d: int) -> char {
    (48 + d) as char
}

/// The six-digit, zero-padded decimal text of `n` (for `n < 1_000_000`).
pub open spec fn six_digits(n: int) -> Seq<char> {
    seq![
        digit_char(n / 100000),
        digit_char((n / 10000) % 10),
        digit_char((n / 1000) % 10),
        digit_char((n / 100) % 10),
        digit_char((n / 10) % 10),
        digit_char(n % 10),
    ]
}

/// The one-character text of the decimal digit `d`.
fn digit_text(d: u64) -> (t: &'static str)
    requires
        d < 10,
    ensures
        t@ == seq![digit_char(d as int)],
{
    if d == 0 {
        proof {
            reveal_strlit("0");
        }
        "0"
    } else if d == 1 {
        proof {
            reveal_strlit("1");
        }
        "1"
    } else if d == 2 {
        proof {
            reveal_strlit("2");
        }
        "2"
    } else if d == 3 {
        proof {
            reveal_strlit("3");
        }
        "3"
    } else if d == 4 {
        proof {
            reveal_strlit("4");
        }
        "4"
    } else if d == 5 {
        proof {
            reveal_strlit("5");
        }
        "5"
    } else if d == 6 {
        proof {
            reveal_strlit("6");
        }
        "6"
    } else if d == 7 {
        proof {
            reveal_strlit("7");
        }
        "7"
    } else if d == 8 {
        proof {
            reveal_strlit("8");
        }
        "8"
    } else {
        proof {
            reveal_strlit("9");
        }
        "9"
    }
}

/// `n` in decimal, zero-padded to six characters (for `n` below one million).
fn format_six_digits(n: u64) -> (s: String)
    requires
        n < 1000000,
    ensures
        s@ == six_digits(n as int),
{
    let mut s = String::new();
    s.append(digit_text(n / 100000));
    s.append(digit_text((n / 10000) % 10));
    s.append(digit_text((n / 1000) % 10));
    s.append(digit_text((n / 100) % 10));
    s.append(digit_text((n / 10) % 10));
    s.append(digit_text(n % 10));
    assert(s@ =~= six_digits(n as int));
    s
}

/// The room code derived from a hash: its last six decimal digits.
pub fn room_code_from_hash(hash: u64) -> (code: String)
    ensures
        code@ == six_digits((hash % 1000000) as int),
{
    format_six_digits(hash % 1000000)
}

impl GameError {
    /// The text the server reports for this error.
    pub open spec fn text(self) -> Seq<char> {
        match self {
            GameError::UsernameEmpty => "Username cannot be empty"@,
            GameError::RoomNotFound => "Room not found"@,
            GameError::GameAlreadyStarted => "Game has already started"@,
            GameError::RoomFull => "Room is full"@,
            GameError::AlreadyInRoom => "You are already in this room"@,
            GameError::NotDealingPhase => "Not in dealing phase"@,
            GameError::NotInRoom => "You are not in this room"@,
            GameError::NotDealer => "Only the dealer can deal"@,
            GameError::NotTrumpPhase => "Not in trump selection phase"@,
            GameError::NotTrumpSelector => "You are not the trump selector"@,
            GameError::NotPlayingPhase => "Game is not in playing phase"@,
            GameError::NotYourTurn => "It's not your turn"@,
            GameError::TrumpNotSet => "Trump suit not set"@,
            GameError::HandNotFound => "Player hand not found"@,
            GameError::HandRecordNotFound => "Hand record not found"@,
            GameError::MustFollowSuit => "You must follow the leading suit"@,
            GameError::CardNotInHand => "Card not in hand"@,
            GameError::BotHandNotFound => "Bot hand not found"@,
            GameError::ScoreNotFound => "Score not found"@,
            GameError::TrumpSelectorNotFound => "Trump selector not found"@,
            GameError::BotHasNoCards => "Bot has no cards to play"@,
            GameError::DuplicateKey => "duplicate key in a unique column"@,
            GameError::IdSequenceExhausted => "id sequence exhausted"@,
            GameError::AutomaticPlayLimit => "automatic play did not finish"@,
        }
    }

    /// The text the server reports for this error.
    pub fn message(&self) -> (m: String)
        ensures
            m@ == self.text(),
    {
        let t: &str = match self {
            GameError::UsernameEmpty => "Username cannot be empty",
            GameError::RoomNotFound => "Room not found",
            GameError::GameAlreadyStarted => "Game has already started",
            GameError::RoomFull => "Room is full",
            GameError::AlreadyInRoom => "You are already in this room",
            GameError::NotDealingPhase => "Not in dealing phase",
            GameError::NotInRoom => "You are not in this room",
            GameError::NotDealer => "Only the dealer can deal",
            GameError::NotTrumpPhase => "Not in trump selection phase",
            GameError::NotTrumpSelector => "You are not the trump selector",
            GameError::NotPlayingPhase => "Game is not in playing phase",
            GameError::NotYourTurn => "It's not your turn",
            GameError::TrumpNotSet => "Trump suit not set",
            GameError::HandNotFound => "Player hand not found",
            GameError::HandRecordNotFound => "Hand record not found",
            GameError::MustFollowSuit => "You must follow the leading suit",
            GameError::CardNotInHand => "Card not in hand",
            GameError::BotHandNotFound => "Bot hand not found",
            GameError::ScoreNotFound => "Score not found",
            GameError::TrumpSelectorNotFound => "Trump selector not found",
            GameError::BotHasNoCards => "Bot has no cards to play",
            GameError::DuplicateKey => "duplicate key in a unique column",
            GameError::IdSequenceExhausted => "id sequence exhausted",
            GameError::AutomaticPlayLimit => "automatic play did not finish",
        };
        t.to_string()
    }
}

/// Law: partners sit opposite each other — seats two apart are on the same
/// team, neighbouring seats on different teams.
pub proof fn lemma_partners_sit_opposite(seat: u8)
    requires
        seat < 4,
    ensures
        team_of_seat(seat) == team_of_seat(((seat + 2) % 4) as u8),
        team_of_seat(seat) != team_of_seat(((seat + 1) % 4) as u8),
{
    assert(seq!['A'][0] != seq!['B'][0]);
}

} // verus!
