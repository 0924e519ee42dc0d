//! Arguments of the flag-setting chat commands.
//!
//! `!set_acc_flag <range> [value]` and `!set_char_flag <range> [value]` take a
//! flag id or an inclusive `lower-upper` range of ids, and a value that
//! defaults to zero.

use vstd::prelude::*;
use vstd::string::StrSliceExecFns;

verus! {

pub open spec fn is_digit(c: char) -> bool {
    '0' <= c && c <= '9'
}

/// Decimal value of a digit string.
pub open spec fn digits_value(s: Seq<char>) -> nat
    decreases s.len(),
{
    if s.len() == 0 {
        0
    } else {
        digits_value(s.drop_last()) * 10 + (s.last() as u32 - '0' as u32) as nat
    }
}

/// The text without a leading `+`.
pub open spec fn sign_stripped(s: Seq<char>) -> Seq<char> {
    if s.len() > 0 && s[0] == '+' {
        s.skip(1)
    } else {
        s
    }
}

/// What `str::parse` gives for an unsigned integer type whose largest value
/// is `max`: an optional `+`, then one or more decimal digits whose value
/// fits.
pub open spec fn parse_unsigned(s: Seq<char>, max: nat) -> Option<nat> {
    let d = sign_stripped(s);
    if d.len() > 0 && (forall|i: int| 0 <= i < d.len() ==> is_digit(d[i])) && digits_value(d)
        <= max {
        Some(digits_value(d))
    } else {
        None
    }
}

/// Parses the characters `from..to` of `s` as a `usize`.
pub(crate) fn parse_usize_at(s: &str, from: usize, to: usize) -> (r: Option<usize>)
    requires
        from <= to <= s@.len(),
    ensures
        match parse_unsigned(s@.subrange(from as int, to as int), usize::MAX as nat) {
            Some(v) => r == Some(v as usize),
            None => r is None,
        },
{
    let ghost t = s@.subrange(from as int, to as int);
    let mut i = from;
    if i < to && s.get_char(i) == '+' {
        i = i + 1;
    }
    let start = i;
    proof {
        assert(sign_stripped(t) =~= s@.subrange(start as int, to as int));
    }
    if start == to {
        return None;
    }
    let mut acc: usize = 0;
    let mut overflow = false;
    while i < to
        invariant
            from <= start <= i <= to <= s@.len(),
            t == s@.subrange(from as int, to as int),
            sign_stripped(t) == s@.subrange(start as int, to as int),
            forall|j: int| start <= j < i ==> is_digit(s@[j]),
            !overflow ==> acc == digits_value(s@.subrange(start as int, i as int)),
            overflow ==> digits_value(s@.subrange(start as int, i as int)) > usize::MAX,
        decreases to - i,
    {
        let c = s.get_char(i);
        if !('0' <= c && c <= '9') {
            proof {
                let d = s@.subrange(start as int, to as int);
                assert(!is_digit(d[i - start]));
            }
            return None;
        }
        let digit = (c as u32 - '0' as u32) as usize;
        let ghost prev = digits_value(s@.subrange(start as int, i as int));
        proof {
            let ext = s@.subrange(start as int, i + 1);
            assert(ext.drop_last() =~= s@.subrange(start as int, i as int));
            assert(digits_value(ext) == prev * 10 + digit);
        }
        if !overflow {
            match acc.checked_mul(10) {
                Some(m) => match m.checked_add(digit) {
                    Some(v) => {
                        acc = v;
                    },
                    None => {
                        overflow = true;
                    },
                },
                None => {
                    proof {
                        assert(prev * 10 + digit >= prev * 10) by (nonlinear_arith);
                    }
                    overflow = true;
                },
            }
        } else {
            proof {
                assert(prev * 10 + digit >= prev) by (nonlinear_arith);
            }
        }
        i = i + 1;
    }
    if overflow {
        None
    } else {
        Some(acc)
    }
}

/// What a flag command's arguments ask for.
#[derive(Clone, Copy, Debug, PartialEq, Eq, Structural)]
pub enum FlagCommand {
    /// No range argument was given.
    NoRange,
    /// The range is not two ids with the lower one first.
    InvalidRange,
    /// The single id is not a number.
    InvalidId,
    /// Set every flag from `lower` to `upper`, both included, to `value`.
    SetFlags { lower: usize, upper: usize, value: u8 },
}

/// Index of the first `sep` at or after `i`, or the length when there is none.
pub open spec fn sep_from(s: Seq<char>, sep: char, i: int) -> int
    decreases s.len() - i,
{
    if i >= s.len() {
        s.len() as int
    } else if s[i] == sep {
        i
    } else {
        sep_from(s, sep, i + 1)
    }
}

proof fn lemma_sep_from_bounds(s: Seq<char>, sep: char, i: int)
    requires
        0 <= i,
    ensures
        i <= sep_from(s, sep, i) || (i > s.len() && sep_from(s, sep, i) == s.len()),
        sep_from(s, sep, i) <= s.len(),
        sep_from(s, sep, i) < s.len() ==> s[sep_from(s, sep, i)] == sep,
    decreases s.len() - i,
{
    if i < s.len() && s[i] != sep {
        lemma_sep_from_bounds(s, sep, i + 1);
    }
}

/// Finds the first `sep` at or after `i`.
fn find_sep(s: &str, sep: char, i: usize) -> (r: usize)
    requires
        i <= s@.len(),
    ensures
        r == sep_from(s@, sep, i as int),
{
    let len = s.unicode_len();
    let mut j = i;
    while j < len
        invariant
            i <= j <= len,
            len == s@.len(),
            sep_from(s@, sep, i as int) == sep_from(s@, sep, j as int),
        decreases len - j,
    {
        if s.get_char(j) == sep {
            return j;
        }
        j = j + 1;
    }
    j
}

/// The flag value argument: a `u8`, or zero when it is missing or not one.
pub open spec fn flag_value(value: Option<Seq<char>>) -> u8 {
    match value {
        Some(t) => match parse_unsigned(t, 255) {
            Some(v) => v as u8,
            None => 0,
        },
        None => 0,
    }
}

/// The command that the arguments ask for: with a `-`, the pieces before the
/// first `-` and between it and the next one are the bounds.
pub open spec fn flag_command(range: Option<Seq<char>>, value: Option<Seq<char>>) -> FlagCommand {
    match range {
        None => FlagCommand::NoRange,
        Some(r) => {
            let v = flag_value(value);
            let p = sep_from(r, '-', 0);
            if p < r.len() {
                let q = sep_from(r, '-', p + 1);
                match (
                    parse_unsigned(r.subrange(0, p), usize::MAX as nat),
                    parse_unsigned(r.subrange(p + 1, q), usize::MAX as nat),
                ) {
                    (Some(a), Some(b)) => if a <= b {
                        FlagCommand::SetFlags { lower: a as usize, upper: b as usize, value: v }
                    } else {
                        FlagCommand::InvalidRange
                    },
                    _ => FlagCommand::InvalidRange,
                }
            } else {
                match parse_unsigned(r, usize::MAX as nat) {
                    Some(id) => FlagCommand::SetFlags { lower: id as usize, upper: id as usize, value: v },
                    None => FlagCommand::InvalidId,
                }
            }
        },
    }
}

/// Reads the range and value arguments of a flag command.
pub fn set_flag_parse(range: Option<&str>, value: Option<&str>) -> (r: FlagCommand)
    ensures
        r == flag_command(
            match range {
                Some(t) => Some(t@),
                None => None,
            },
            match value {
                Some(t) => Some(t@),
                None => None,
            },
        ),
{
    let range = match range {
        Some(r) => r,
        None => return FlagCommand::NoRange,
    };
    let val: u8 = match value {
        Some(t) => {
            let len = t.unicode_len();
            proof {
                assert(t@.subrange(0, len as int) =~= t@);
            }
            match parse_usize_at(t, 0, len) {
                Some(v) => if v <= 255 {
                    v as u8
                } else {
                    0
                },
                None => 0,
            }
        },
        None => 0,
    };
    let len = range.unicode_len();
    let p = find_sep(range, '-', 0);
    proof {
        lemma_sep_from_bounds(range@, '-', 0);
    }
    if p < len {
        let q = find_sep(range, '-', p + 1);
        proof {
            lemma_sep_from_bounds(range@, '-', p + 1);
        }
        let lower = parse_usize_at(range, 0, p);
        let upper = parse_usize_at(range, p + 1, q);
        match (lower, upper) {
            (Some(a), Some(b)) => if a <= b {
                FlagCommand::SetFlags { lower: a, upper: b, value: val }
            } else {
                FlagCommand::InvalidRange
            },
            _ => FlagCommand::InvalidRange,
        }
    } else {
        proof {
            assert(range@.subrange(0, len as int) =~= range@);
        }
        match parse_usize_at(range, 0, len) {
            Some(id) => FlagCommand::SetFlags { lower: id, upper: id, value: val },
            None => FlagCommand::InvalidId,
        }
    }
}

/// Start of the `k`-th word of a message split at single spaces, if the
/// message has that many.
pub open spec fn piece_start(s: Seq<char>, k: nat) -> Option<int>
    decreases k,
{
    if k == 0 {
        Some(0)
    } else {
        match piece_start(s, (k - 1) as nat) {
            Some(st) => if sep_from(s, ' ', st) < s.len() {
                Some(sep_from(s, ' ', st) + 1)
            } else {
                None
            },
            None => None,
        }
    }
}

/// The `k`-th word of a message split at single spaces (words may be empty).
pub open spec fn piece(s: Seq<char>, k: nat) -> Option<Seq<char>> {
    match piece_start(s, k) {
        Some(st) => Some(s.subrange(st, sep_from(s, ' ', st))),
        None => None,
    }
}

proof fn lemma_no_more_pieces(s: Seq<char>, a: nat, b: nat)
    requires
        a <= b,
        piece_start(s, a) is None,
    ensures
        piece_start(s, b) is None,
    decreases b - a,
{
    if a < b {
        lemma_no_more_pieces(s, a, (b - 1) as nat);
    }
}

/// Bounds of the `k`-th word.
fn piece_bounds(s: &str, k: usize) -> (r: Option<(usize, usize)>)
    ensures
        match piece_start(s@, k as nat) {
            Some(st) => r matches Some((a, b)) && a == st && b == sep_from(s@, ' ', st),
            None => r is None,
        },
        r matches Some((a, b)) ==> a <= b <= s@.len(),
{
    let len = s.unicode_len();
    let mut st: usize = 0;
    let mut j: usize = 0;
    while j < k
        invariant
            j <= k,
            len == s@.len(),
            st <= len,
            piece_start(s@, j as nat) == Some(st as int),
        decreases k - j,
    {
        let e = find_sep(s, ' ', st);
        proof {
            lemma_sep_from_bounds(s@, ' ', st as int);
        }
        if e >= len {
            proof {
                assert(piece_start(s@, (j + 1) as nat) is None);
                lemma_no_more_pieces(s@, (j + 1) as nat, k as nat);
            }
            return None;
        }
        st = e + 1;
        j = j + 1;
    }
    let e = find_sep(s, ' ', st);
    proof {
        lemma_sep_from_bounds(s@, ' ', st as int);
    }
    Some((st, e))
}

/// The `k`-th word.
fn piece_text(s: &str, k: usize) -> (r: Option<&str>)
    ensures
        match piece(s@, k as nat) {
            Some(w) => r matches Some(t) && t@ == w,
            None => r is None,
        },
{
    match piece_bounds(s, k) {
        Some((a, b)) => {
            let t = s.substring_char(a, b);
            Some(t)
        },
        None => None,
    }
}

/// The text is exactly `w`.
fn text_is(t: &str, w: &str) -> (r: bool)
    ensures
        r == (t@ == w@),
{
    let n = t.unicode_len();
    if n != w.unicode_len() {
        return false;
    }
    let mut i: usize = 0;
    while i < n
        invariant
            n == t@.len() == w@.len(),
            0 <= i <= n,
            forall|j: int| 0 <= j < i ==> t@[j] == w@[j],
        decreases n - i,
    {
        if t.get_char(i) != w.get_char(i) {
            return false;
        }
        i = i + 1;
    }
    assert(t@ =~= w@);
    true
}

/// A `u16` word, as `str::parse` reads it.
pub open spec fn u16_word(w: Option<Seq<char>>) -> Option<nat> {
    match w {
        Some(t) => match parse_unsigned(t, u16::MAX as nat) {
            Some(v) => Some(v),
            None => None,
        },
        None => None,
    }
}

fn parse_u16_word(w: Option<&str>) -> (r: Option<u16>)
    ensures
        match u16_word(
            match w {
                Some(t) => Some(t@),
                None => None,
            },
        ) {
            Some(v) => r == Some(v as u16),
            None => r is None,
        },
{
    match w {
        Some(t) => {
            let len = t.unicode_len();
            proof {
                assert(t@.subrange(0, len as int) =~= t@);
            }
            match parse_usize_at(t, 0, len) {
                Some(v) => if v <= 65535 {
                    Some(v as u16)
                } else {
                    None
                },
                None => None,
            }
        },
        None => None,
    }
}

/// What a chat message asks for.
#[derive(Clone, Debug, PartialEq, Eq)]
pub enum ChatCommand {
    /// Not a command: the message goes to its chat area.
    Message,
    Memory,
    ReloadMap,
    StartConcert(String),
    /// `!start_con` without a concert name.
    NoConcertName,
    SendConcert(String),
    /// `!send_con` without an action.
    NoConcertAction,
    GetPosition,
    /// `!get_close_obj` with its distance word, if any.
    GetCloseObjects(Option<String>),
    ReloadItems,
    SetAccountFlag(FlagCommand),
    SetCharacterFlag(FlagCommand),
    AddItem { item_type: u16, id: u16, subid: u16 },
    NoItemType,
    NoItemId,
    NoItemSubid,
    /// A `!` word that names no command.
    Unknown,
}

/// The words of a command as the flag parser takes them.
pub open spec fn flag_of(m: Seq<char>) -> FlagCommand {
    flag_command(piece(m, 1), piece(m, 2))
}

/// Reads a chat message: one starting with `!` is a command, named by its
/// first word, with its arguments in the following words.
pub fn chat_command(message: &str) -> (r: ChatCommand)
    ensures
        ({
            let m = message@;
            let cmd = m.subrange(0, sep_from(m, ' ', 0));
            let arg1 = piece(m, 1);
            if !(m.len() > 0 && m[0] == '!') {
                r == ChatCommand::Message
            } else if cmd == "!mem"@ {
                r == ChatCommand::Memory
            } else if cmd == "!reload_map"@ {
                r == ChatCommand::ReloadMap
            } else if cmd == "!start_con"@ {
                match arg1 {
                    Some(n) => r matches ChatCommand::StartConcert(x) && x@ == n,
                    None => r == ChatCommand::NoConcertName,
                }
            } else if cmd == "!send_con"@ {
                match arg1 {
                    Some(n) => r matches ChatCommand::SendConcert(x) && x@ == n,
                    None => r == ChatCommand::NoConcertAction,
                }
            } else if cmd == "!get_pos"@ {
                r == ChatCommand::GetPosition
            } else if cmd == "!get_close_obj"@ {
                r matches ChatCommand::GetCloseObjects(d) && match arg1 {
                    Some(n) => d matches Some(x) && x@ == n,
                    None => d is None,
                }
            } else if cmd == "!reload_items"@ {
                r == ChatCommand::ReloadItems
            } else if cmd == "!set_acc_flag"@ {
                r == ChatCommand::SetAccountFlag(flag_of(m))
            } else if cmd == "!set_char_flag"@ {
                r == ChatCommand::SetCharacterFlag(flag_of(m))
            } else if cmd == "!add_item"@ {
                match (u16_word(arg1), u16_word(piece(m, 2)), u16_word(piece(m, 3))) {
                    (None, _, _) => r == ChatCommand::NoItemType,
                    (Some(_), None, _) => r == ChatCommand::NoItemId,
                    (Some(_), Some(_), None) => r == ChatCommand::NoItemSubid,
                    (Some(t), Some(i), Some(s)) => r == ChatCommand::AddItem {
                        item_type: t as u16,
                        id: i as u16,
                        subid: s as u16,
                    },
                }
            } else {
                r == ChatCommand::Unknown
            }
        }),
{
    let len = message.unicode_len();
    if len == 0 || message.get_char(0) != '!' {
        return ChatCommand::Message;
    }
    let cmd = match piece_text(message, 0) {
        Some(c) => c,
        None => return ChatCommand::Unknown,
    };
    let arg1 = piece_text(message, 1);
    if text_is(cmd, "!mem") {
        ChatCommand::Memory
    } else if text_is(cmd, "!reload_map") {
        ChatCommand::ReloadMap
    } else if text_is(cmd, "!start_con") {
        match arg1 {
            Some(n) => ChatCommand::StartConcert(n.to_owned()),
            None => ChatCommand::NoConcertName,
        }
    } else if text_is(cmd, "!send_con") {
        match arg1 {
            Some(n) => ChatCommand::SendConcert(n.to_owned()),
            None => ChatCommand::NoConcertAction,
        }
    } else if text_is(cmd, "!get_pos") {
        ChatCommand::GetPosition
    } else if text_is(cmd, "!get_close_obj") {
        match arg1 {
            Some(n) => ChatCommand::GetCloseObjects(Some(n.to_owned())),
            None => ChatCommand::GetCloseObjects(None),
        }
    } else if text_is(cmd, "!reload_items") {
        ChatCommand::ReloadItems
    } else if text_is(cmd, "!set_acc_flag") {
        ChatCommand::SetAccountFlag(set_flag_parse(arg1, piece_text(message, 2)))
    } else if text_is(cmd, "!set_char_flag") {
        ChatCommand::SetCharacterFlag(set_flag_parse(arg1, piece_text(message, 2)))
    } else if text_is(cmd, "!add_item") {
        let item_type = match parse_u16_word(arg1) {
            Some(v) => v,
            None => return ChatCommand::NoItemType,
        };
        let id = match parse_u16_word(piece_text(message, 2)) {
            Some(v) => v,
            None => return ChatCommand::NoItemId,
        };
        let subid = match parse_u16_word(piece_text(message, 3)) {
            Some(v) => v,
            None => return ChatCommand::NoItemSubid,
        };
        ChatCommand::AddItem { item_type, id, subid }
    } else {
        ChatCommand::Unknown
    }
}

} // verus!
