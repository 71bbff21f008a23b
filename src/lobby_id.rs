//! Short lobby ids: six symbols of `[0-9A-Za-z]`, drawn at random.

use vstd::prelude::*;
use vstd::std_specs::iter::IteratorSpec;

verus! {

broadcast use vstd::string::axiom_spec_iter, vstd::string::next_postcondition;

/// Number of symbols in a lobby id.
pub const ID_LENGTH: usize = 6;

/// Number of symbols in the base62 alphabet `[0-9A-Za-z]`.
pub const CHARSET_LEN: usize = 62;

/// The `i`-th symbol of the alphabet `0123456789ABCDEFGHIJKLMNOPQRSTUVWXYZabcdefghijklmnopqrstuvwxyz`.
pub open spec fn base62_symbol(i: int) -> char {
    if i < 10 {
        (('0' as int) + i) as char
    } else if i < 36 {
        (('A' as int) + (i - 10)) as char
    } else {
        (('a' as int) + (i - 36)) as char
    }
}

/// `c` is one of `[0-9A-Za-z]`.
pub open spec fn is_base62(c: char) -> bool {
    ('0' <= c && c <= '9') || ('A' <= c && c <= 'Z') || ('a' <= c && c <= 'z')
}

/// A well-formed lobby id: exactly six base62 symbols.
pub open spec fn is_lobby_code(s: Seq<char>) -> bool {
    s.len() == 6 && forall|i: int| 0 <= i < s.len() ==> is_base62(#[trigger] s[i])
}

/// Relies on rand::random_range: a uniformly drawn integer in `0..bound`.
/// It panics on an empty range, which `bound > 0` rules out.
#[verifier::external_body]
fn random_index(bound: usize) -> (r: usize)
    requires
        bound > 0,
    ensures
        r < bound,
{
    rand::random_range(0..bound)
}

/// The symbol of the alphabet at position `idx`.
fn charset_symbol(idx: usize) -> (c: char)
    requires
        idx < 62,
    ensures
        c == base62_symbol(idx as int),
        is_base62(c),
{
    let code: u8 = if idx < 10 {
        48u8 + idx as u8
    } else if idx < 36 {
        65u8 + (idx - 10) as u8
    } else {
        97u8 + (idx - 36) as u8
    };
    code as char
}

/// Six symbols drawn at random from the base62 alphabet.
fn generate_short_id() -> (id: [char; 6])
    ensures
        is_lobby_code(id@),
{
    let mut id: [char; 6] = ['0'; 6];
    let mut i: usize = 0;
    while i < ID_LENGTH
        invariant
            i <= 6,
            id@.len() == 6,
            forall|j: int| 0 <= j < 6 ==> is_base62(#[trigger] id@[j]),
        decreases 6 - i,
    {
        let idx = random_index(CHARSET_LEN);
        id[i] = charset_symbol(idx);
        i = i + 1;
    }
    id
}

/// Why a string is not a lobby id.
#[derive(Debug, Clone, Copy, PartialEq, Eq, Structural)]
pub enum ParseLobbyIdError {
    /// The string does not have six characters; `got` is how many it has.
    InvalidLength { expected: usize, got: usize },
    /// The character at `position` is not one of `[0-9A-Za-z]`.
    InvalidCharacter { position: usize },
}

/// A short, shareable lobby code of six base62 symbols.
#[derive(Debug, Clone, Copy, Eq, Hash)]
pub struct LobbyId(pub [char; 6]);

impl PartialEq for LobbyId {
    fn eq(&self, other: &LobbyId) -> (r: bool) {
        let mut i: usize = 0;
        while i < ID_LENGTH
            invariant
                i <= 6,
                self@.len() == 6,
                other@.len() == 6,
                forall|j: int| 0 <= j < i ==> self@[j] == other@[j],
            decreases 6 - i,
        {
            if self.0[i] != other.0[i] {
                return false;
            }
            i = i + 1;
        }
        assert(self.0 =~= other.0);
        true
    }
}

impl vstd::std_specs::cmp::PartialEqSpecImpl for LobbyId {
    open spec fn obeys_eq_spec() -> bool {
        true
    }

    open spec fn eq_spec(&self, other: &LobbyId) -> bool {
        *self == *other
    }
}

impl View for LobbyId {
    type V = Seq<char>;

    open spec fn view(&self) -> Seq<char> {
        self.0@
    }
}

/// Relies on `String: FromIterator<char>`: the string made of the given
/// characters, in order.
#[verifier::external_body]
fn string_from_chars(chars: [char; 6]) -> (r: String)
    ensures
        r@ == chars@,
{
    String::from_iter(chars)
}

impl LobbyId {
    /// A fresh random lobby id. Uniqueness among live lobbies is not checked.
    pub fn new() -> (r: Self)
        ensures
            is_lobby_code(r@),
    {
        LobbyId(generate_short_id())
    }

    /// Whether the id is made of six base62 symbols.
    pub open spec fn wf(&self) -> bool {
        is_lobby_code(self@)
    }

    /// Reads a lobby id from its six-character text form.
    pub fn parse(s: &str) -> (r: Result<LobbyId, ParseLobbyIdError>)
        ensures
            r is Ok <==> is_lobby_code(s@),
            r matches Ok(id) ==> id@ == s@,
            r matches Err(ParseLobbyIdError::InvalidLength { expected, got }) ==> expected == 6
                && got as int == s@.len() && s@.len() != 6,
            r matches Err(ParseLobbyIdError::InvalidCharacter { position }) ==> s@.len() == 6
                && position < 6 && !is_base62(s@[position as int]) && forall|j: int|
                0 <= j < position ==> is_base62(#[trigger] s@[j]),
    {
        let mut id: [char; 6] = ['0'; 6];
        let mut count: usize = 0;
        let mut bad: Option<usize> = None;
        let mut chars = s.chars();
        while count <= ID_LENGTH
            invariant
                count <= s@.len(),
                count <= 7,
                id@.len() == 6,
                chars.obeys_prophetic_iter_laws(),
                chars.remaining() == s@.skip(count as int),
                forall|j: int| 0 <= j < count && j < 6 ==> id@[j] == s@[j],
                bad matches Some(p) ==> p < count && p < 6 && !is_base62(s@[p as int])
                    && forall|j: int| 0 <= j < p ==> is_base62(#[trigger] s@[j]),
                bad is None ==> forall|j: int|
                    0 <= j < count && j < 6 ==> is_base62(#[trigger] s@[j]),
            ensures
                count == s@.len() || (count == 7 && s@.len() >= 7),
                count <= 7,
                id@.len() == 6,
                forall|j: int| 0 <= j < count && j < 6 ==> id@[j] == s@[j],
                bad matches Some(p) ==> p < count && p < 6 && !is_base62(s@[p as int])
                    && forall|j: int| 0 <= j < p ==> is_base62(#[trigger] s@[j]),
                bad is None ==> forall|j: int|
                    0 <= j < count && j < 6 ==> is_base62(#[trigger] s@[j]),
            decreases 7 - count,
        {
            let ghost before = chars;
            let next = chars.next();
            proof {
                vstd::string::next_postcondition(&before, &chars, next);
            }
            match next {
                None => {
                    assert(before.remaining().len() == 0);
                    break;
                },
                Some(c) => {
                    assert(s@.skip(count as int)[0] == s@[count as int]);
                    assert(chars.remaining() =~= s@.skip(count as int + 1));
                    if count < ID_LENGTH {
                        id[count] = c;
                        if bad.is_none() && !is_base62_char(c) {
                            bad = Some(count);
                        }
                    }
                    count = count + 1;
                },
            }
        }
        if count != ID_LENGTH {
            return Err(ParseLobbyIdError::InvalidLength { expected: ID_LENGTH, got: s.unicode_len() });
        }
        match bad {
            Some(position) => Err(ParseLobbyIdError::InvalidCharacter { position }),
            None => {
                assert(id@ =~= s@);
                Ok(LobbyId(id))
            },
        }
    }

    /// The six-character text form of the id.
    pub fn to_string(&self) -> (r: String)
        ensures
            r@ == self@,
    {
        string_from_chars(self.0)
    }
}

impl std::str::FromStr for LobbyId {
    type Err = ParseLobbyIdError;

    fn from_str(s: &str) -> (r: Result<LobbyId, ParseLobbyIdError>)
        ensures
            r is Ok <==> is_lobby_code(s@),
            r matches Ok(id) ==> id@ == s@,
            r matches Err(ParseLobbyIdError::InvalidLength { expected, got }) ==> expected == 6
                && got as int == s@.len() && s@.len() != 6,
            r matches Err(ParseLobbyIdError::InvalidCharacter { position }) ==> s@.len() == 6
                && position < 6 && !is_base62(s@[position as int]) && forall|j: int|
                0 <= j < position ==> is_base62(#[trigger] s@[j]),
    {
        LobbyId::parse(s)
    }
}

/// Whether `c` is one of `[0-9A-Za-z]`.
pub fn is_base62_char(c: char) -> (r: bool)
    ensures
        r == is_base62(c),
{
    ('0' <= c && c <= '9') || ('A' <= c && c <= 'Z') || ('a' <= c && c <= 'z')
}

/// Reading back the text form of a well-formed id, such as one from
/// `LobbyId::new`, through `parse` or `from_str` gives the same id.
pub proof fn lemma_text_form_round_trip(
    id: LobbyId,
    text: Seq<char>,
    parsed: Result<LobbyId, ParseLobbyIdError>,
)
    requires
        id.wf(),
        text == id@,
        parsed is Ok <==> is_lobby_code(text),
        parsed matches Ok(back) ==> back@ == text,
    ensures
        parsed == Ok::<LobbyId, ParseLobbyIdError>(id),
{
    let back = parsed->Ok_0;
    assert(back.0 =~= id.0);
}

} // verus!
