//! The operator's selection: a line of comma separated tokens, each naming a
//! room by its position in the listing or by its identifier, and optionally
//! marked so that the old account leaves the room afterwards.

use vstd::prelude::*;
use crate::identifiers::{room_id_accepted, room_id_wellformed};

verus! {

/// A room of the selection: its position in the frozen listing, or its
/// identifier.
#[derive(Clone, Debug, PartialEq, Eq)]
pub enum RoomRef {
    Index(usize),
    Id(String),
}

/// What a `RoomRef` stands for.
pub enum RoomRefView {
    Index(nat),
    Id(Seq<char>),
}

impl View for RoomRef {
    type V = RoomRefView;

    open spec fn view(&self) -> RoomRefView {
        match self {
            RoomRef::Index(i) => RoomRefView::Index(*i as nat),
            RoomRef::Id(id) => RoomRefView::Id(id@),
        }
    }
}

/// One room to migrate, and whether the old account leaves it afterwards.
#[derive(Clone, Debug, PartialEq, Eq)]
pub struct MigrationTask {
    pub room: RoomRef,
    pub leave_after: bool,
}

/// What a `MigrationTask` stands for.
pub struct TaskView {
    pub room: RoomRefView,
    pub leave_after: bool,
}

impl View for MigrationTask {
    type V = TaskView;

    open spec fn view(&self) -> TaskView {
        TaskView { room: self.room@, leave_after: self.leave_after }
    }
}

/// Why a token names no room.
#[derive(Clone, Copy, Debug, PartialEq, Eq, Structural)]
pub enum Malformation {
    /// The token is neither a room identifier nor a decimal number.
    NotAnInteger,
    /// The number is not a position of the listing.
    IndexOutOfRange,
    /// The token starts like a room identifier but is not a well-formed one.
    InvalidRoomId,
}

/// A token that was rejected: its text without blanks and marker, and the
/// reason. Only this token is lost; the others of the line stand.
#[derive(Clone, Debug, PartialEq, Eq)]
pub struct MalformedSelection {
    pub token: String,
    pub reason: Malformation,
}

/// What a `MalformedSelection` stands for.
pub struct MalformedView {
    pub token: Seq<char>,
    pub reason: Malformation,
}

impl View for MalformedSelection {
    type V = MalformedView;

    open spec fn view(&self) -> MalformedView {
        MalformedView { token: self.token@, reason: self.reason }
    }
}

/// The model of one parsed token.
pub open spec fn entry_model(e: Result<MigrationTask, MalformedSelection>) -> Result<
    TaskView,
    MalformedView,
> {
    match e {
        Ok(task) => Ok(task@),
        Err(bad) => Err(bad@),
    }
}

/// Blanks are dropped around a token.
pub open spec fn is_blank(c: char) -> bool {
    c == ' ' || c == '\t' || c == '\n' || c == '\r'
}

/// The text without its leading blanks.
pub open spec fn trim_start(s: Seq<char>) -> Seq<char>
    decreases s.len(),
{
    if s.len() > 0 && is_blank(s[0]) {
        trim_start(s.drop_first())
    } else {
        s
    }
}

/// The text without its trailing blanks.
pub open spec fn trim_end(s: Seq<char>) -> Seq<char>
    decreases s.len(),
{
    if s.len() > 0 && is_blank(s.last()) {
        trim_end(s.drop_last())
    } else {
        s
    }
}

/// The text without the blanks at either end.
pub open spec fn trim(s: Seq<char>) -> Seq<char> {
    trim_end(trim_start(s))
}

/// The tokens of a line: the pieces between its commas, in order. A line
/// without a comma is one token, and so is the empty line.
pub open spec fn split(s: Seq<char>) -> Seq<Seq<char>>
    decreases s.len(),
{
    if s.len() == 0 {
        seq![Seq::<char>::empty()]
    } else {
        let before = split(s.drop_last());
        if s.last() == ',' {
            before.push(Seq::<char>::empty())
        } else {
            before.update(before.len() - 1, before.last().push(s.last()))
        }
    }
}

/// The tokens put together again, with a comma between neighbours.
pub open spec fn join(tokens: Seq<Seq<char>>) -> Seq<char>
    decreases tokens.len(),
{
    if tokens.len() == 0 {
        Seq::<char>::empty()
    } else if tokens.len() == 1 {
        tokens[0]
    } else {
        join(tokens.drop_last()).push(',') + tokens.last()
    }
}

/// Whether the token, already without blanks around it, ends in the marker
/// that asks for leaving the room.
pub open spec fn marked(t: Seq<char>) -> bool {
    t.len() > 0 && t.last() == '#'
}

/// Whether the token asks for leaving the room after the migration.
pub open spec fn token_leaves(raw: Seq<char>) -> bool {
    marked(trim(raw))
}

/// What of the token names the room: the token without the blanks around it
/// and without one trailing marker.
pub open spec fn token_body(raw: Seq<char>) -> Seq<char> {
    let t = trim(raw);
    if marked(t) {
        trim(t.drop_last())
    } else {
        t
    }
}

/// Whether the body is meant as a room identifier.
pub open spec fn names_room(body: Seq<char>) -> bool {
    body.len() > 0 && body[0] == '!'
}

/// The decimal digits are `0` to `9` and no others.
pub open spec fn is_digit(c: char) -> bool {
    '0' <= c && c <= '9'
}

/// The number that a decimal digit stands for.
pub open spec fn digit_value(c: char) -> nat {
    (c as u32 - 48) as nat
}

/// Whether the text holds decimal digits and nothing else.
pub open spec fn digits_only(s: Seq<char>) -> bool {
    forall|i: int| 0 <= i < s.len() ==> is_digit(#[trigger] s[i])
}

/// The number that a sequence of decimal digits denotes.
pub open spec fn decimal_value(s: Seq<char>) -> nat
    decreases s.len(),
{
    if s.len() == 0 {
        0
    } else {
        10 * decimal_value(s.drop_last()) + digit_value(s.last())
    }
}

/// The digits of a number: the text without one leading `+`.
pub open spec fn unsigned(body: Seq<char>) -> Seq<char> {
    if body.len() > 0 && body[0] == '+' {
        body.drop_first()
    } else {
        body
    }
}

/// A number is one or more decimal digits, with at most a `+` before them.
pub open spec fn is_integer(body: Seq<char>) -> bool {
    unsigned(body).len() > 0 && digits_only(unsigned(body))
}

/// The number that the body denotes, however large.
pub open spec fn integer_value(body: Seq<char>) -> nat {
    decimal_value(unsigned(body))
}

/// What a token means, given whether its body is a well-formed room
/// identifier and how many rooms the listing has.
pub open spec fn classify(raw: Seq<char>, id_ok: bool, listing_len: nat) -> Result<
    TaskView,
    MalformedView,
> {
    let body = token_body(raw);
    let leave_after = token_leaves(raw);
    if names_room(body) {
        if id_ok {
            Ok(TaskView { room: RoomRefView::Id(body), leave_after })
        } else {
            Err(MalformedView { token: body, reason: Malformation::InvalidRoomId })
        }
    } else if !is_integer(body) {
        Err(MalformedView { token: body, reason: Malformation::NotAnInteger })
    } else if integer_value(body) >= listing_len {
        Err(MalformedView { token: body, reason: Malformation::IndexOutOfRange })
    } else {
        Ok(TaskView { room: RoomRefView::Index(integer_value(body)), leave_after })
    }
}

/// What a token means.
pub open spec fn read_token(raw: Seq<char>, listing_len: nat) -> Result<TaskView, MalformedView> {
    classify(raw, room_id_wellformed(token_body(raw)), listing_len)
}

/// What a line means: the meaning of each of its tokens, in the order in
/// which the line gives them.
pub open spec fn read_selection(line: Seq<char>, listing_len: nat) -> Seq<
    Result<TaskView, MalformedView>,
> {
    Seq::new(split(line).len(), |i: int| read_token(split(line)[i], listing_len))
}

/// Splitting loses nothing and cuts at every comma: a line has at least one
/// token, no token holds a comma, and the tokens joined by commas are the
/// line again.
pub proof fn lemma_split_join(s: Seq<char>)
    ensures
        split(s).len() >= 1,
        forall|i: int, j: int|
            0 <= i < split(s).len() && 0 <= j < split(s)[i].len() ==> #[trigger] split(s)[i][j]
                != ',',
        join(split(s)) == s,
    decreases s.len(),
{
    if s.len() == 0 {
        assert(join(split(s)) =~= s);
    } else {
        let front = s.drop_last();
        let c = s.last();
        let before = split(front);
        lemma_split_join(front);
        if c == ',' {
            let tokens = before.push(Seq::<char>::empty());
            assert(tokens.drop_last() =~= before);
            assert(join(tokens) =~= front.push(','));
            assert(front.push(',') =~= s);
        } else {
            let tokens = before.update(before.len() - 1, before.last().push(c));
            if before.len() == 1 {
                assert(before[0] == front);
                assert(tokens[0] =~= s);
            } else {
                assert(tokens.drop_last() =~= before.drop_last());
                assert(join(tokens) =~= (join(before.drop_last()).push(',') + before.last()).push(
                    c,
                ));
                assert(front.push(c) =~= s);
            }
            assert forall|i: int, j: int|
                0 <= i < tokens.len() && 0 <= j < tokens[i].len() implies #[trigger] tokens[i][j]
                != ',' by {
                if i < before.len() - 1 {
                    assert(before[i][j] != ',');
                } else if j < before.last().len() {
                    assert(before[i][j] != ',');
                }
            }
        }
    }
}

/// The entries of a selection stand in the order of the line: there is one
/// per token, and the entry at each place is the meaning of the token at
/// that place, whatever the other tokens are.
pub proof fn lemma_selection_in_line_order(line: Seq<char>, listing_len: nat, i: int)
    requires
        0 <= i < split(line).len(),
    ensures
        read_selection(line, listing_len).len() == split(line).len(),
        read_selection(line, listing_len)[i] == read_token(split(line)[i], listing_len),
{
}

/// A token is rejected for exactly three reasons: it looks like a room
/// identifier and is none, it is no number, or its number is no position of
/// the listing. In every other case it names a room, by the identifier or
/// the position that it holds, and carries the leave mark of the token.
pub proof fn lemma_token_cases(raw: Seq<char>, id_ok: bool, listing_len: nat)
    ensures
        classify(raw, id_ok, listing_len) is Err <==> (names_room(token_body(raw)) && !id_ok) || (
        !names_room(token_body(raw)) && !is_integer(token_body(raw))) || (!names_room(
            token_body(raw),
        ) && is_integer(token_body(raw)) && integer_value(token_body(raw)) >= listing_len),
        classify(raw, id_ok, listing_len) matches Ok(task) ==> task.leave_after == token_leaves(
            raw,
        ),
        classify(raw, id_ok, listing_len) matches Err(bad) ==> bad.token == token_body(raw),
{
}

fn blank(c: char) -> (b: bool)
    ensures
        b == is_blank(c),
{
    c == ' ' || c == '\t' || c == '\n' || c == '\r'
}

/// The text without the blanks at either end.
pub fn trimmed(s: &str) -> (r: &str)
    ensures
        r@ == trim(s@),
{
    let n: usize = s.unicode_len();
    let mut a: usize = 0;
    assert(s@.subrange(0, n as int) =~= s@);
    while a < n && blank(s.get_char(a))
        invariant
            a <= n,
            n == s@.len(),
            trim_start(s@) == trim_start(s@.subrange(a as int, n as int)),
        decreases n - a,
    {
        assert(s@.subrange(a as int, n as int).drop_first() =~= s@.subrange(
            a as int + 1,
            n as int,
        ));
        a = a + 1;
    }
    let mut b: usize = n;
    while b > a && blank(s.get_char(b - 1))
        invariant
            a <= b <= n,
            n == s@.len(),
            trim_start(s@) == s@.subrange(a as int, n as int),
            trim(s@) == trim_end(s@.subrange(a as int, b as int)),
        decreases b,
    {
        assert(s@.subrange(a as int, b as int).drop_last() =~= s@.subrange(
            a as int,
            b as int - 1,
        ));
        b = b - 1;
    }
    s.substring_char(a, b)
}

/// The body of a token and whether the token is marked for leaving.
pub fn strip_marker(token: &str) -> (r: (&str, bool))
    ensures
        r.0@ == token_body(token@),
        r.1 == token_leaves(token@),
{
    let t = trimmed(token);
    let n: usize = t.unicode_len();
    if n > 0 && t.get_char(n - 1) == '#' {
        let rest = t.substring_char(0, n - 1);
        assert(rest@ =~= t@.drop_last());
        (trimmed(rest), true)
    } else {
        (t, false)
    }
}

/// Reads the body of a token as a position of a listing of `listing_len`
/// rooms.
pub fn read_index(body: &str, listing_len: usize) -> (r: Result<usize, Malformation>)
    ensures
        match r {
            Ok(i) => is_integer(body@) && integer_value(body@) == i && i < listing_len,
            Err(reason) => if is_integer(body@) {
                reason == Malformation::IndexOutOfRange && integer_value(body@) >= listing_len
            } else {
                reason == Malformation::NotAnInteger
            },
        },
{
    let n: usize = body.unicode_len();
    let first: usize = if n > 0 && body.get_char(0) == '+' {
        1
    } else {
        0
    };
    let digits = body.substring_char(first, n);
    assert(digits@ =~= unsigned(body@));
    let m: usize = n - first;
    if m == 0 {
        return Err(Malformation::NotAnInteger);
    }
    let mut value: usize = 0;
    let mut beyond: bool = listing_len == 0;
    let mut i: usize = 0;
    while i < m
        invariant
            i <= m,
            m == digits@.len(),
            digits@ == unsigned(body@),
            digits_only(digits@.subrange(0, i as int)),
            !beyond ==> value == decimal_value(digits@.subrange(0, i as int)) && value
                < listing_len,
            beyond ==> decimal_value(digits@.subrange(0, i as int)) >= listing_len,
        decreases m - i,
    {
        let c = digits.get_char(i);
        assert(digits@.subrange(0, i as int + 1).drop_last() =~= digits@.subrange(0, i as int));
        assert(digits@.subrange(0, i as int + 1).last() == c);
        if !('0' <= c && c <= '9') {
            assert(!digits_only(digits@));
            return Err(Malformation::NotAnInteger);
        }
        let d: u32 = c as u32 - 48;
        if !beyond {
            let next: u128 = value as u128 * 10 + d as u128;
            if next < listing_len as u128 {
                value = next as usize;
            } else {
                beyond = true;
            }
        }
        assert(digits_only(digits@.subrange(0, i as int + 1))) by {
            assert forall|j: int| 0 <= j < i + 1 implies is_digit(
                #[trigger] digits@.subrange(0, i as int + 1)[j],
            ) by {
                if j < i {
                    assert(digits@.subrange(0, i as int)[j] == digits@[j]);
                }
            }
        }
        i = i + 1;
    }
    assert(digits@.subrange(0, m as int) =~= digits@);
    if beyond {
        Err(Malformation::IndexOutOfRange)
    } else {
        Ok(value)
    }
}

/// What a token means, once it is known whether its body is a well-formed
/// room identifier.
pub fn classify_token(token: &str, id_ok: bool, listing_len: usize) -> (r: Result<
    MigrationTask,
    MalformedSelection,
>)
    ensures
        entry_model(r) == classify(token@, id_ok, listing_len as nat),
{
    let (body, leave_after) = strip_marker(token);
    let n: usize = body.unicode_len();
    if n > 0 && body.get_char(0) == '!' {
        if id_ok {
            Ok(MigrationTask { room: RoomRef::Id(body.to_owned()), leave_after })
        } else {
            Err(MalformedSelection { token: body.to_owned(), reason: Malformation::InvalidRoomId })
        }
    } else {
        match read_index(body, listing_len) {
            Ok(index) => Ok(MigrationTask { room: RoomRef::Index(index), leave_after }),
            Err(reason) => Err(MalformedSelection { token: body.to_owned(), reason }),
        }
    }
}

/// What a token means. A body that starts with `!` is tested as a room
/// identifier.
pub fn parse_token(token: &str, listing_len: usize) -> (r: Result<
    MigrationTask,
    MalformedSelection,
>)
    ensures
        entry_model(r) == read_token(token@, listing_len as nat),
{
    let (body, _) = strip_marker(token);
    let n: usize = body.unicode_len();
    let id_ok = if n > 0 && body.get_char(0) == '!' {
        room_id_accepted(body)
    } else {
        false
    };
    classify_token(token, id_ok, listing_len)
}

/// Reads a whole line: one entry per token, in the order of the line. A
/// malformed token spoils its own entry and no other.
pub fn parse_selection(line: &str, listing_len: usize) -> (entries: Vec<
    Result<MigrationTask, MalformedSelection>,
>)
    ensures
        entries@.len() == read_selection(line@, listing_len as nat).len(),
        forall|i: int|
            0 <= i < entries@.len() ==> entry_model(#[trigger] entries@[i]) == read_selection(
                line@,
                listing_len as nat,
            )[i],
{
    let n: usize = line.unicode_len();
    let mut entries: Vec<Result<MigrationTask, MalformedSelection>> = Vec::new();
    let mut start: usize = 0;
    let mut i: usize = 0;
    while i < n
        invariant
            start <= i <= n,
            n == line@.len(),
            entries@.len() + 1 == split(line@.subrange(0, i as int)).len(),
            split(line@.subrange(0, i as int)).last() == line@.subrange(start as int, i as int),
            forall|j: int|
                0 <= j < entries@.len() ==> entry_model(#[trigger] entries@[j]) == read_token(
                    split(line@.subrange(0, i as int))[j],
                    listing_len as nat,
                ),
        decreases n - i,
    {
        let c = line.get_char(i);
        let ghost before = split(line@.subrange(0, i as int));
        assert(line@.subrange(0, i as int + 1).drop_last() =~= line@.subrange(0, i as int));
        assert(line@.subrange(0, i as int + 1).last() == c);
        if c == ',' {
            let token = line.substring_char(start, i);
            entries.push(parse_token(token, listing_len));
            start = i + 1;
            assert(line@.subrange(start as int, i as int + 1) =~= Seq::<char>::empty());
        } else {
            assert(line@.subrange(start as int, i as int).push(c) =~= line@.subrange(
                start as int,
                i as int + 1,
            ));
        }
        i = i + 1;
    }
    assert(line@.subrange(0, n as int) =~= line@);
    let token = line.substring_char(start, n);
    entries.push(parse_token(token, listing_len));
    entries
}

} // verus!
