//! Drawing lobby ids and lobby codes.
//!
//! Both are drawn at random, and drawn again while the draw is taken. After [`DRAWS`] draws that
//! were all taken, the first free value is used, so that drawing always ends.

use rand::Rng;
use vstd::prelude::*;

use super::state;
use super::state::ServerState;

verus! {

/// How many draws are tried before the first free value is taken instead.
const DRAWS: u32 = 1_000;

/// The first letter a code may hold.
const LETTER_A: u8 = 65;

/// The last letter a code may hold.
const LETTER_Z: u8 = 90;

/// How many lobby codes there are.
pub const CODES: u32 = 456_976;

/// `String::push`: the string is one character longer.
pub assume_specification[ String::push ](string: &mut String, ch: char)
    ensures
        final(string)@ == old(string)@.push(ch),
;

/// `rand::random`: any number at all, from the thread's generator.
#[verifier::external_body]
fn random_u64() -> (drawn: u64) {
    rand::random()
}

/// `rand::Rng::random_range` over an inclusive range, from the thread's generator: any number from
/// `low` to `high`. It panics where the range is empty.
#[verifier::external_body]
fn random_within(low: u8, high: u8) -> (drawn: u8)
    requires
        low <= high,
    ensures
        low <= drawn <= high,
{
    rand::rng().random_range(low..=high)
}

/// The code that these letters spell.
pub open spec fn spelled(first: u8, second: u8, third: u8, fourth: u8) -> Seq<char> {
    seq![first as char, second as char, third as char, fourth as char]
}

/// The code that these letters spell.
fn spell(first: u8, second: u8, third: u8, fourth: u8) -> (code: String)
    requires
        LETTER_A <= first <= LETTER_Z,
        LETTER_A <= second <= LETTER_Z,
        LETTER_A <= third <= LETTER_Z,
        LETTER_A <= fourth <= LETTER_Z,
    ensures
        code@ == spelled(first, second, third, fourth),
        state::is_code(code@),
{
    let mut code = String::new();
    code.push(first as char);
    code.push(second as char);
    code.push(third as char);
    code.push(fourth as char);
    assert(code@ =~= spelled(first, second, third, fourth));
    code
}

/// The `n`th code in alphabetical order.
pub open spec fn nth_code(n: int) -> Seq<char> {
    spelled(
        (65 + n / 17_576) as u8,
        (65 + n / 676 % 26) as u8,
        (65 + n / 26 % 26) as u8,
        (65 + n % 26) as u8,
    )
}

/// Every code is the `n`th for some `n`.
proof fn lemma_every_code_has_a_place(code: Seq<char>) -> (n: int)
    requires
        state::is_code(code),
    ensures
        0 <= n < CODES,
        nth_code(n) == code,
{
    let a = code[0] as int - 65;
    let b = code[1] as int - 65;
    let c = code[2] as int - 65;
    let d = code[3] as int - 65;
    let n = a * 17_576 + b * 676 + c * 26 + d;
    assert(n % 26 == d && n / 26 == a * 676 + b * 26 + c);
    assert(n / 26 % 26 == c);
    assert(n / 676 == a * 26 + b);
    assert(n / 676 % 26 == b);
    assert(n / 17_576 == a);
    assert(nth_code(n) =~= code);
    n
}

impl ServerState {
    /// The lowest id under which a lobby can be created.
    pub fn first_free_id(&self) -> (found: Option<u64>)
        ensures
            found matches Some(id) ==> self@.id_is_free(id) && forall|lower: u64|
                lower < id ==> !self@.id_is_free(lower),
            found is None ==> forall|id: u64| !self@.id_is_free(id),
    {
        let mut id: u64 = 1;
        while id < u64::MAX
            invariant
                id >= 1,
                forall|lower: u64| lower < id ==> !self@.id_is_free(lower),
            decreases u64::MAX - id,
        {
            if self.lobby(id).is_none() {
                return Some(id);
            }
            id += 1;
        }
        if self.lobby(id).is_none() {
            Some(id)
        } else {
            None
        }
    }

    /// The first code, in alphabetical order, that no lobby uses.
    pub fn first_free_code(&self) -> (found: Option<String>)
        ensures
            found matches Some(code) ==> exists|n: int|
                {
                    &&& 0 <= n < CODES
                    &&& code@ == #[trigger] nth_code(n)
                    &&& self@.code_is_free(code@)
                    &&& forall|i: int| 0 <= i < n ==> !self@.code_is_free(#[trigger] nth_code(i))
                },
            found is None ==> forall|code: Seq<char>| !self@.code_is_free(code),
    {
        let mut n: u32 = 0;
        while n < CODES
            invariant
                n <= CODES,
                forall|i: int| 0 <= i < n ==> self@.codes.dom().contains(#[trigger] nth_code(i)),
            decreases CODES - n,
        {
            let code = spell(
                (65 + n / 17_576) as u8,
                (65 + n / 676 % 26) as u8,
                (65 + n / 26 % 26) as u8,
                (65 + n % 26) as u8,
            );
            assert(code@ == nth_code(n as int));
            if self.lobby_by_code(&code).is_none() {
                return Some(code);
            }
            n += 1;
        }
        assert forall|code: Seq<char>| !self@.code_is_free(code) by {
            if state::is_code(code) {
                let place = lemma_every_code_has_a_place(code);
            }
        }
        None
    }

    /// Whether one more lobby fits.
    pub fn has_room(&self) -> (room: bool)
        ensures
            room == self@.has_room(),
    {
        self.first_free_id().is_some() && self.first_free_code().is_some()
    }

    /// A lobby id nothing currently uses.
    ///
    /// Random rather than sequential on purpose. Ids are handed to clients in `LobbyCreated` and
    /// accepted back in `JoinLobby`, so a counter would make every lobby joinable by counting and
    /// the four-letter code decorative. A random `u64` cannot be enumerated. Zero is kept out so
    /// it can never be mistaken for "no lobby" by anything that stores ids as plain integers.
    pub fn next_lobby_id(&self) -> (id: u64)
        requires
            exists|id: u64| self@.id_is_free(id),
        ensures
            self@.id_is_free(id),
    {
        let mut draws: u32 = 0;
        while draws < DRAWS
            decreases DRAWS - draws,
        {
            let id = random_u64();
            if id != 0 && self.lobby(id).is_none() {
                return id;
            }
            draws += 1;
        }
        match self.first_free_id() {
            Some(id) => id,
            None => 0,
        }
    }

    /// A lobby code nothing currently uses.
    pub(crate) fn generate_lobby_code(&self) -> (code: String)
        requires
            exists|code: Seq<char>| self@.code_is_free(code),
        ensures
            self@.code_is_free(code@),
    {
        let mut draws: u32 = 0;
        while draws < DRAWS
            decreases DRAWS - draws,
        {
            let code = spell(
                random_within(LETTER_A, LETTER_Z),
                random_within(LETTER_A, LETTER_Z),
                random_within(LETTER_A, LETTER_Z),
                random_within(LETTER_A, LETTER_Z),
            );
            if self.lobby_by_code(&code).is_none() {
                return code;
            }
            draws += 1;
        }
        match self.first_free_code() {
            Some(code) => code,
            None => String::new(),
        }
    }
}

} // verus!
