//! Short random identifiers over alphabets that leave out look-alike characters.

use rand::Rng;
use uuid::Uuid;
use vstd::prelude::*;
use vstd::string::*;

verus! {

/// The digits and the lower-case letters without `l`: 35 characters.
pub const DICT35: &'static str = "0123456789abcdefghijkmnopqrstuvwxyz";

/// The digits without `0`, the lower-case letters without `l`, and the
/// upper-case letters without `I` and `O`: 58 characters.
pub const DICT58: &'static str = "123456789abcdefghijkmnopqrstuvwxyzABCDEFGHJKLMNPQRSTUVWXYZ";

/// `count` times the character `0`.
pub open spec fn zeros(count: nat) -> Seq<char> {
    Seq::new(count, |i: int| '0')
}

/// The numeral of `n` over the alphabet `dict`, right-aligned in `width`
/// places: the digit of least weight stands last, digits beyond the width are
/// dropped, and the places before the leading digit hold `0`.
pub open spec fn numeral(n: nat, dict: Seq<char>, width: nat) -> Seq<char>
    decreases width,
{
    if width == 0 {
        Seq::empty()
    } else if n < dict.len() {
        zeros((width - 1) as nat).push(dict[n as int])
    } else {
        numeral(n / dict.len(), dict, (width - 1) as nat).push(dict[(n % dict.len()) as int])
    }
}

/// The text that a sequence of picks from the 35-character alphabet spells.
pub open spec fn spelled(picks: Seq<usize>) -> Seq<char> {
    Seq::new(picks.len(), |i: int| DICT35@[picks[i] as int])
}

/// Whether `n` carries the version and variant marks of a random UUID.
pub open spec fn is_random_uuid(n: u128) -> bool {
    n & 0x0000_0000_0000_f000_c000_0000_0000_0000u128
        == 0x0000_0000_0000_4000_8000_0000_0000_0000u128
}

/// `Rng::gen_range` on the thread-local generator of `rand`: some index from
/// `low` up to, but not including, `high`. The range must not be empty, as
/// `gen_range` panics on an empty one.
#[verifier::external_body]
fn random_index(low: usize, high: usize) -> (pick: usize)
    requires
        low < high,
    ensures
        low <= pick < high,
{
    rand::thread_rng().gen_range(low..high)
}

/// `Uuid::new_v4` read as a 128-bit number by `Uuid::as_u128`: random but for
/// the version and variant marks, which `new_v4` sets.
#[verifier::external_body]
fn random_uuid() -> (n: u128)
    ensures
        is_random_uuid(n),
{
    Uuid::new_v4().as_u128()
}

fn zero_run(count: usize) -> (s: String)
    ensures
        s@ == zeros(count as nat),
{
    let mut s = String::new();
    let mut i: usize = 0;
    proof {
        reveal_strlit("0");
        assert(s@ =~= zeros(0));
    }
    while i < count
        invariant
            i <= count,
            s@ == zeros(i as nat),
            "0"@ == seq!['0'],
        decreases count - i,
    {
        s.append("0");
        i += 1;
        assert(s@ =~= zeros(i as nat));
    }
    s
}

/// Writes `n` over the alphabet `dict`, right-aligned in `width` places.
pub fn write_numeral(n: u128, dict: &str, width: usize) -> (text: String)
    requires
        dict@.len() >= 1,
    ensures
        text@ == numeral(n as nat, dict@, width as nat),
    decreases width,
{
    if width == 0 {
        return String::new();
    }
    let base = dict.unicode_len();
    let wide: u128 = base as u128;
    if n < wide {
        let digit: usize = n as usize;
        let mut text = zero_run(width - 1);
        text.append(dict.substring_char(digit, digit + 1));
        assert(dict@.subrange(digit as int, digit + 1) =~= seq![dict@[digit as int]]);
        assert(text@ =~= numeral(n as nat, dict@, width as nat));
        text
    } else {
        let digit: usize = (n % wide) as usize;
        let mut text = write_numeral(n / wide, dict, width - 1);
        text.append(dict.substring_char(digit, digit + 1));
        assert(dict@.subrange(digit as int, digit + 1) =~= seq![dict@[digit as int]]);
        assert(text@ =~= numeral(n as nat, dict@, width as nat));
        text
    }
}

/// The 25-place numeral of `n` over the 35-character alphabet.
pub fn number_base35(n: u128) -> (id: String)
    ensures
        id@ == numeral(n as nat, DICT35@, 25),
        id@.len() == 25,
{
    proof {
        reveal_strlit("0123456789abcdefghijkmnopqrstuvwxyz");
        lemma_numeral_len(n as nat, DICT35@, 25);
    }
    write_numeral(n, DICT35, 25)
}

/// The 22-place numeral of `n` over the 58-character alphabet.
pub fn number_base58(n: u128) -> (id: String)
    ensures
        id@ == numeral(n as nat, DICT58@, 22),
        id@.len() == 22,
{
    proof {
        reveal_strlit("123456789abcdefghijkmnopqrstuvwxyzABCDEFGHJKLMNPQRSTUVWXYZ");
        lemma_numeral_len(n as nat, DICT58@, 22);
    }
    write_numeral(n, DICT58, 22)
}

/// A numeral has as many places as its width.
pub proof fn lemma_numeral_len(n: nat, dict: Seq<char>, width: nat)
    requires
        dict.len() > 0,
    ensures
        numeral(n, dict, width).len() == width,
    decreases width,
{
    if width > 0 {
        if n < dict.len() {
            assert(zeros((width - 1) as nat).len() == width - 1);
        } else {
            lemma_numeral_len(n / dict.len(), dict, (width - 1) as nat);
        }
    }
}

/// The text that `picks` spell over the 35-character alphabet.
pub fn spell_base35(picks: &Vec<usize>) -> (id: String)
    requires
        forall|i: int| 0 <= i < picks@.len() ==> #[trigger] picks@[i] < 35,
    ensures
        id@ == spelled(picks@),
{
    proof {
        reveal_strlit("0123456789abcdefghijkmnopqrstuvwxyz");
    }
    let mut id = String::new();
    let mut i: usize = 0;
    assert(id@ =~= spelled(picks@.subrange(0, 0)));
    while i < picks.len()
        invariant
            i <= picks@.len(),
            DICT35@.len() == 35,
            forall|k: int| 0 <= k < picks@.len() ==> #[trigger] picks@[k] < 35,
            id@ == spelled(picks@.subrange(0, i as int)),
        decreases picks@.len() - i,
    {
        let x = picks[i];
        id.append(DICT35.substring_char(x, x + 1));
        i += 1;
        assert(DICT35@.subrange(x as int, x + 1) =~= seq![DICT35@[x as int]]);
        assert(id@ =~= spelled(picks@.subrange(0, i as int)));
    }
    assert(picks@.subrange(0, picks@.len() as int) =~= picks@);
    id
}

/// A random identifier of `len` characters over the 35-character alphabet
/// that starts with a letter.
pub fn randid_base35(len: usize) -> (id: String)
    requires
        len >= 1,
    ensures
        id@.len() == len,
        exists|picks: Seq<usize>|
            {
                &&& picks.len() == len
                &&& 10 <= picks[0] < 35
                &&& forall|i: int| 0 <= i < len ==> #[trigger] picks[i] < 35
                &&& id@ == spelled(picks)
            },
{
    let mut picks: Vec<usize> = Vec::new();
    picks.push(random_index(10, 35));
    let mut i: usize = 1;
    while i < len
        invariant
            1 <= i <= len,
            picks@.len() == i,
            10 <= picks@[0] < 35,
            forall|k: int| 0 <= k < i ==> #[trigger] picks@[k] < 35,
        decreases len - i,
    {
        picks.push(random_index(0, 35));
        i += 1;
    }
    spell_base35(&picks)
}

/// A random UUID as a 25-place numeral over the 35-character alphabet.
pub fn uuid_base35() -> (id: String)
    ensures
        id@.len() == 25,
        exists|n: u128| is_random_uuid(n) && id@ == numeral(n as nat, DICT35@, 25),
{
    number_base35(random_uuid())
}

/// A random UUID as a 22-place numeral over the 58-character alphabet.
pub fn uuid_base58() -> (id: String)
    ensures
        id@.len() == 22,
        exists|n: u128| is_random_uuid(n) && id@ == numeral(n as nat, DICT58@, 22),
{
    number_base58(random_uuid())
}

} // verus!
