//! Referral codes: short alphanumeric codes, each registered once and for
//! one account.

use vstd::prelude::*;

verus! {

/// Identifies an account.
pub type AccountId = u64;

/// A referral code, as the bytes it is written with.
pub type ReferralCode = Vec<u8>;

/// The least length of a referral code.
pub const MIN_CODE_LENGTH: usize = 3;

/// What is fixed when the registry of codes is set up.
#[derive(Clone, Copy, Debug, PartialEq, Eq, Structural)]
pub struct Config {
    /// The greatest length of a referral code.
    pub code_length: u32,
}

/// What a registration makes known.
#[derive(Debug, PartialEq, Eq)]
pub enum Event {
    /// `code` now stands for `account`.
    CodeRegistered { code: ReferralCode, account: AccountId },
}

/// Why a code is not registered.
#[derive(Clone, Copy, Debug, PartialEq, Eq, Structural)]
pub enum Error {
    /// The code is longer than the configured maximum.
    TooLong,
    /// The code is shorter than the minimum.
    TooShort,
    /// The code holds a character that is neither a letter nor a digit.
    InvalidCharacter,
    /// The code is registered already.
    AlreadyExists,
}

/// Whether `c` is a letter or a digit, as `char::is_alphanumeric` tells it.
pub uninterp spec fn alphanumeric(c: char) -> bool;

/// Calls `char::is_alphanumeric`. Nothing is claimed of which characters
/// count as letters or digits: the result is known by its name alone.
#[verifier::external_body]
fn is_alphanumeric(c: char) -> (yes: bool)
    ensures
        yes == alphanumeric(c),
{
    c.is_alphanumeric()
}

/// Whether every byte of `code`, read as a character, is a letter or a digit.
pub open spec fn all_alphanumeric(code: Seq<u8>) -> bool {
    forall|i: int| 0 <= i < code.len() ==> alphanumeric(#[trigger] code[i] as char)
}

/// Why `code` is not registered, if it is not, given whether its characters
/// were found to be letters and digits only: its length is looked at first,
/// then that finding, then whether it is taken.
pub open spec fn refusal_given(
    codes: Map<Seq<u8>, AccountId>,
    config: Config,
    code: Seq<u8>,
    alphanumeric: bool,
) -> Option<Error> {
    if code.len() > config.code_length {
        Some(Error::TooLong)
    } else if code.len() < MIN_CODE_LENGTH {
        Some(Error::TooShort)
    } else if !alphanumeric {
        Some(Error::InvalidCharacter)
    } else if codes.contains_key(code) {
        Some(Error::AlreadyExists)
    } else {
        None
    }
}

/// Why `code` is not registered, if it is not.
pub open spec fn refusal(
    codes: Map<Seq<u8>, AccountId>,
    config: Config,
    code: Seq<u8>,
) -> Option<Error> {
    refusal_given(codes, config, code, all_alphanumeric(code))
}

/// One registered code with its account.
struct Registration {
    code: ReferralCode,
    account: AccountId,
}

/// The map that `registrations` stand for.
spec fn as_map(registrations: Seq<Registration>) -> Map<Seq<u8>, AccountId>
    decreases registrations.len(),
{
    if registrations.len() == 0 {
        Map::empty()
    } else {
        as_map(registrations.drop_last()).insert(
            registrations.last().code@,
            registrations.last().account,
        )
    }
}

/// Whether the codes of `registrations` differ from one another.
spec fn distinct(registrations: Seq<Registration>) -> bool {
    forall|i: int, j: int|
        0 <= i < j < registrations.len() ==> registrations[i].code@ != registrations[j].code@
}

/// A registration of distinct ones is what the map holds under its code.
proof fn lemma_registration_in_map(registrations: Seq<Registration>, i: int)
    requires
        distinct(registrations),
        0 <= i < registrations.len(),
    ensures
        as_map(registrations).contains_key(registrations[i].code@),
        as_map(registrations)[registrations[i].code@] == registrations[i].account,
    decreases registrations.len(),
{
    if i < registrations.len() - 1 {
        let front = registrations.drop_last();
        assert(distinct(front)) by {
            assert forall|a: int, b: int| 0 <= a < b < front.len() implies front[a].code@
                != front[b].code@ by {
                assert(registrations[a].code@ != registrations[b].code@);
            }
        }
        lemma_registration_in_map(front, i);
        assert(registrations[i].code@ != registrations[registrations.len() - 1].code@);
    }
}

/// A code that no registration carries is not in the map.
proof fn lemma_unregistered_not_in_map(registrations: Seq<Registration>, code: Seq<u8>)
    requires
        forall|i: int| 0 <= i < registrations.len() ==> (#[trigger] registrations[i]).code@ != code,
    ensures
        !as_map(registrations).contains_key(code),
    decreases registrations.len(),
{
    if registrations.len() > 0 {
        lemma_unregistered_not_in_map(registrations.drop_last(), code);
        assert(registrations[registrations.len() - 1].code@ != code);
    }
}

/// Whether two codes are written with the same bytes.
fn same_code(left: &ReferralCode, right: &ReferralCode) -> (same: bool)
    ensures
        same == (left@ == right@),
{
    if left.len() != right.len() {
        return false;
    }
    let mut i: usize = 0;
    while i < left.len()
        invariant
            i <= left@.len(),
            left@.len() == right@.len(),
            forall|k: int| 0 <= k < i ==> left@[k] == right@[k],
        decreases left@.len() - i,
    {
        if left[i] != right[i] {
            return false;
        }
        i += 1;
    }
    assert(left@ =~= right@);
    true
}

/// Whether every byte of `code`, read as a character, is a letter or a digit.
fn only_alphanumeric(code: &ReferralCode) -> (yes: bool)
    ensures
        yes == all_alphanumeric(code@),
{
    let mut i: usize = 0;
    while i < code.len()
        invariant
            i <= code@.len(),
            forall|k: int| 0 <= k < i ==> alphanumeric(#[trigger] code@[k] as char),
        decreases code@.len() - i,
    {
        if !is_alphanumeric(code[i] as char) {
            return false;
        }
        i += 1;
    }
    true
}

/// The registered referral codes.
pub struct Pallet {
    config: Config,
    registrations: Vec<Registration>,
}

impl View for Pallet {
    type V = Map<Seq<u8>, AccountId>;

    closed spec fn view(&self) -> Map<Seq<u8>, AccountId> {
        as_map(self.registrations@)
    }
}

impl Pallet {
    #[verifier::type_invariant]
    spec fn codes_distinct(self) -> bool {
        distinct(self.registrations@)
    }

    /// The configuration the registry was set up with.
    pub closed spec fn config(&self) -> Config {
        self.config
    }

    /// A registry without codes.
    pub fn new(config: Config) -> (pallet: Pallet)
        ensures
            pallet@ == Map::<Seq<u8>, AccountId>::empty(),
            pallet.config() == config,
    {
        Pallet { config, registrations: Vec::new() }
    }

    /// The place of `code` among the registrations, where it has one.
    fn find(&self, code: &ReferralCode) -> (found: Option<usize>)
        ensures
            found.is_some() <==> self@.contains_key(code@),
            found matches Some(pos) ==> pos < self.registrations@.len()
                && self.registrations@[pos as int].account == self@[code@],
    {
        proof {
            use_type_invariant(self);
        }
        let mut i: usize = 0;
        while i < self.registrations.len()
            invariant
                i <= self.registrations@.len(),
                distinct(self.registrations@),
                forall|k: int| 0 <= k < i ==> (#[trigger] self.registrations@[k]).code@ != code@,
            decreases self.registrations@.len() - i,
        {
            if same_code(&self.registrations[i].code, code) {
                proof {
                    lemma_registration_in_map(self.registrations@, i as int);
                }
                return Some(i);
            }
            i += 1;
        }
        proof {
            lemma_unregistered_not_in_map(self.registrations@, code@);
        }
        None
    }

    /// The account that `code` stands for, if it is registered.
    pub fn referral_account(&self, code: &ReferralCode) -> (account: Option<AccountId>)
        ensures
            account == (if self@.contains_key(code@) {
                Some(self@[code@])
            } else {
                None
            }),
    {
        match self.find(code) {
            Some(pos) => Some(self.registrations[pos].account),
            None => None,
        }
    }

    /// Registers `code` for `account`. The code must be between
    /// `MIN_CODE_LENGTH` and the configured maximum in length, hold letters
    /// and digits only, and not be registered yet; a code that is refused
    /// changes nothing.
    pub fn register_code(&mut self, code: ReferralCode, account: AccountId) -> (result: Result<
        Event,
        Error,
    >)
        ensures
            match result {
                Ok(Event::CodeRegistered { code: registered, account: holder }) => {
                    &&& refusal(old(self)@, old(self).config(), code@).is_none()
                    &&& registered@ == code@
                    &&& holder == account
                    &&& final(self)@ == old(self)@.insert(code@, account)
                },
                Err(error) => {
                    &&& refusal(old(self)@, old(self).config(), code@) == Some(error)
                    &&& final(self)@ == old(self)@
                },
            },
            final(self).config() == old(self).config(),
    {
        // A code that is too long is refused for its length, unread.
        let alphanumeric = code.len() <= self.config.code_length as usize && only_alphanumeric(
            &code,
        );
        self.register_examined(code, account, alphanumeric)
    }

    /// Registers `code` for `account` once its characters have been looked
    /// at: `alphanumeric` is taken for whether all of them are letters or
    /// digits. Length and uniqueness are decided here.
    pub fn register_examined(
        &mut self,
        code: ReferralCode,
        account: AccountId,
        alphanumeric: bool,
    ) -> (result: Result<Event, Error>)
        ensures
            match result {
                Ok(Event::CodeRegistered { code: registered, account: holder }) => {
                    &&& refusal_given(old(self)@, old(self).config(), code@, alphanumeric).is_none()
                    &&& registered@ == code@
                    &&& holder == account
                    &&& final(self)@ == old(self)@.insert(code@, account)
                },
                Err(error) => {
                    &&& refusal_given(old(self)@, old(self).config(), code@, alphanumeric) == Some(
                        error,
                    )
                    &&& final(self)@ == old(self)@
                },
            },
            final(self).config() == old(self).config(),
    {
        proof {
            use_type_invariant(&*self);
        }
        if code.len() > self.config.code_length as usize {
            return Err(Error::TooLong);
        }
        if code.len() < MIN_CODE_LENGTH {
            return Err(Error::TooShort);
        }
        if !alphanumeric {
            return Err(Error::InvalidCharacter);
        }
        if self.find(&code).is_some() {
            return Err(Error::AlreadyExists);
        }
        let registered = copy_of(&code);
        let ghost before = self.registrations@;
        let mut registrations: Vec<Registration> = Vec::new();
        std::mem::swap(&mut registrations, &mut self.registrations);
        registrations.push(Registration { code, account });
        proof {
            assert(registrations@.drop_last() =~= before);
            assert forall|i: int, j: int| 0 <= i < j < registrations@.len() implies registrations@[i].code@
                != registrations@[j].code@ by {
                if j < before.len() {
                    assert(before[i].code@ != before[j].code@);
                } else {
                    assert(before[i].code@ != code@) by {
                        if before[i].code@ == code@ {
                            lemma_registration_in_map(before, i);
                        }
                    }
                }
            }
        }
        self.registrations = registrations;
        Ok(Event::CodeRegistered { code: registered, account })
    }
}

/// A second vector with the bytes of `code`.
fn copy_of(code: &ReferralCode) -> (copy: ReferralCode)
    ensures
        copy@ == code@,
{
    let mut copy: ReferralCode = Vec::new();
    let mut i: usize = 0;
    while i < code.len()
        invariant
            i <= code@.len(),
            copy@ == code@.subrange(0, i as int),
        decreases code@.len() - i,
    {
        copy.push(code[i]);
        assert(copy@ =~= code@.subrange(0, i + 1));
        i += 1;
    }
    assert(copy@ =~= code@);
    copy
}

} // verus!
