//! The failures that abort an invocation or a collection operation.

use vstd::prelude::*;
use vstd::string::StringExecFns;

verus! {

/// Why an operation was refused. None of these is retried by the engine.
#[derive(Clone, Copy, Debug, PartialEq, Eq, Structural)]
pub enum Error {
    /// A record that had to be present is absent.
    NotFound,
    /// An instruction names the same address twice.
    DuplicateAccount,
    /// A record's schema tag differs from the one a collection is bound to.
    ContainerTypeMismatch,
    /// The execution context holds no account at a collection's next slot.
    CollectionSlotNotFound,
    /// A proxy exists but its target cannot be resolved to the expected schema.
    ProxyNotFound,
    /// The data of an account that was not marked writable has changed.
    NonMutableAccountChange,
    /// The source of a transfer holds less than the amount asked for.
    InsufficientBalance,
    /// No entrypoint is registered for the program address.
    EntrypointNotFound,
    /// No bump seed yields an address off the curve.
    AddressSpaceExhausted,
    /// There are too many seeds, or one of them is too long.
    MaxSeedLengthExceeded,
    /// The seeds derive an address that lies on the curve.
    InvalidSeeds,
    /// The derived address would belong to a reserved owner.
    IllegalOwner,
    /// An account's data is longer than the minimum-balance policy covers.
    AccountDataTooLarge,
    /// A collection's entry count has reached the largest index.
    CollectionFull,
    /// The program's entrypoint returned this error code.
    ProgramFailed(u64),
}

/// The character of a decimal digit.
pub open spec fn digit_char(d: nat) -> char {
    if d == 0 {
        '0'
    } else if d == 1 {
        '1'
    } else if d == 2 {
        '2'
    } else if d == 3 {
        '3'
    } else if d == 4 {
        '4'
    } else if d == 5 {
        '5'
    } else if d == 6 {
        '6'
    } else if d == 7 {
        '7'
    } else if d == 8 {
        '8'
    } else {
        '9'
    }
}

/// The decimal digits of a number, most significant first, without leading
/// zeros.
pub open spec fn spec_decimal(n: nat) -> Seq<char>
    decreases n,
{
    if n < 10 {
        seq![digit_char(n)]
    } else {
        spec_decimal(n / 10).push(digit_char(n % 10))
    }
}

/// The one-character text of a decimal digit.
fn digit_str(d: u64) -> (s: &'static str)
    requires
        d < 10,
    ensures
        s@ == seq![digit_char(d as nat)],
{
    proof {
        reveal_strlit("0");
        reveal_strlit("1");
        reveal_strlit("2");
        reveal_strlit("3");
        reveal_strlit("4");
        reveal_strlit("5");
        reveal_strlit("6");
        reveal_strlit("7");
        reveal_strlit("8");
        reveal_strlit("9");
    }
    let s = if d == 0 {
        "0"
    } else if d == 1 {
        "1"
    } else if d == 2 {
        "2"
    } else if d == 3 {
        "3"
    } else if d == 4 {
        "4"
    } else if d == 5 {
        "5"
    } else if d == 6 {
        "6"
    } else if d == 7 {
        "7"
    } else if d == 8 {
        "8"
    } else {
        "9"
    };
    assert(s@ =~= seq![digit_char(d as nat)]);
    s
}

/// Renders a number in decimal digits.
pub fn decimal(n: u64) -> (s: String)
    ensures
        s@ == spec_decimal(n as nat),
    decreases n,
{
    if n < 10 {
        digit_str(n).to_owned()
    } else {
        let mut s = decimal(n / 10);
        s.append(digit_str(n % 10));
        assert(s@ =~= spec_decimal((n / 10) as nat).push(digit_char((n % 10) as nat)));
        s
    }
}

impl Error {
    /// The description carried by a failed response: the name of the
    /// failure, and for a failed program the code that it returned.
    pub open spec fn spec_message(self) -> Seq<char> {
        match self {
            Error::NotFound => "NotFound"@,
            Error::DuplicateAccount => "DuplicateAccount"@,
            Error::ContainerTypeMismatch => "ContainerTypeMismatch"@,
            Error::CollectionSlotNotFound => "CollectionSlotNotFound"@,
            Error::ProxyNotFound => "ProxyNotFound"@,
            Error::NonMutableAccountChange => "NonMutableAccountChange"@,
            Error::InsufficientBalance => "InsufficientBalance"@,
            Error::EntrypointNotFound => "EntrypointNotFound"@,
            Error::AddressSpaceExhausted => "AddressSpaceExhausted"@,
            Error::MaxSeedLengthExceeded => "MaxSeedLengthExceeded"@,
            Error::InvalidSeeds => "InvalidSeeds"@,
            Error::IllegalOwner => "IllegalOwner"@,
            Error::AccountDataTooLarge => "AccountDataTooLarge"@,
            Error::CollectionFull => "CollectionFull"@,
            Error::ProgramFailed(code) => "ProgramFailed("@ + spec_decimal(code as nat) + ")"@,
        }
    }

    /// Renders the error as the text that a response carries.
    pub fn message(&self) -> (s: String)
        ensures
            s@ == self.spec_message(),
    {
        match self {
            Error::NotFound => "NotFound".to_owned(),
            Error::DuplicateAccount => "DuplicateAccount".to_owned(),
            Error::ContainerTypeMismatch => "ContainerTypeMismatch".to_owned(),
            Error::CollectionSlotNotFound => "CollectionSlotNotFound".to_owned(),
            Error::ProxyNotFound => "ProxyNotFound".to_owned(),
            Error::NonMutableAccountChange => "NonMutableAccountChange".to_owned(),
            Error::InsufficientBalance => "InsufficientBalance".to_owned(),
            Error::EntrypointNotFound => "EntrypointNotFound".to_owned(),
            Error::AddressSpaceExhausted => "AddressSpaceExhausted".to_owned(),
            Error::MaxSeedLengthExceeded => "MaxSeedLengthExceeded".to_owned(),
            Error::InvalidSeeds => "InvalidSeeds".to_owned(),
            Error::IllegalOwner => "IllegalOwner".to_owned(),
            Error::AccountDataTooLarge => "AccountDataTooLarge".to_owned(),
            Error::CollectionFull => "CollectionFull".to_owned(),
            Error::ProgramFailed(code) => {
                let mut s = "ProgramFailed(".to_owned();
                let digits = decimal(*code);
                s.append(digits.as_str());
                s.append(")");
                s
            },
        }
    }
}

/// Every number has at least one digit.
pub proof fn lemma_decimal_len(n: nat)
    ensures
        spec_decimal(n).len() >= 1,
    decreases n,
{
    if n >= 10 {
        lemma_decimal_len(n / 10);
    }
}

/// Two numbers with the same digits are the same number.
pub proof fn lemma_decimal_injective(a: nat, b: nat)
    requires
        spec_decimal(a) == spec_decimal(b),
    ensures
        a == b,
    decreases a,
{
    let da = spec_decimal(a);
    let db = spec_decimal(b);
    if a < 10 && b < 10 {
        assert(da[0] == digit_char(a));
        assert(db[0] == digit_char(b));
    } else if a < 10 {
        lemma_decimal_len(b / 10);
        assert(db.len() >= 2);
        assert(da.len() == 1);
    } else if b < 10 {
        lemma_decimal_len(a / 10);
        assert(da.len() >= 2);
        assert(db.len() == 1);
    } else {
        let ha = spec_decimal(a / 10);
        let hb = spec_decimal(b / 10);
        assert(da == ha.push(digit_char(a % 10)));
        assert(db == hb.push(digit_char(b % 10)));
        assert(da.drop_last() =~= ha);
        assert(db.drop_last() =~= hb);
        assert(da.last() == digit_char(a % 10));
        assert(db.last() == digit_char(b % 10));
        lemma_decimal_injective(a / 10, b / 10);
        assert(a % 10 == b % 10);
    }
}

/// The description of a failure tells the failure: two failures with the
/// same description are the same, the code of a failed program included.
pub proof fn lemma_message_tells_failure(e: Error, f: Error)
    requires
        e.spec_message() == f.spec_message(),
    ensures
        e == f,
{
    reveal_strlit("NotFound");
    reveal_strlit("DuplicateAccount");
    reveal_strlit("ContainerTypeMismatch");
    reveal_strlit("CollectionSlotNotFound");
    reveal_strlit("ProxyNotFound");
    reveal_strlit("NonMutableAccountChange");
    reveal_strlit("InsufficientBalance");
    reveal_strlit("EntrypointNotFound");
    reveal_strlit("AddressSpaceExhausted");
    reveal_strlit("MaxSeedLengthExceeded");
    reveal_strlit("InvalidSeeds");
    reveal_strlit("IllegalOwner");
    reveal_strlit("AccountDataTooLarge");
    reveal_strlit("CollectionFull");
    reveal_strlit("ProgramFailed(");
    reveal_strlit(")");
    let me = e.spec_message();
    let mf = f.spec_message();
    assert(me.len() == mf.len());
    assert(me[0] == mf[0]);
    assert(me[1] == mf[1]);
    let head = "ProgramFailed("@;
    let tail = ")"@;
    if let Error::ProgramFailed(a) = e {
        let da = spec_decimal(a as nat);
        lemma_decimal_len(a as nat);
        assert(me == head + da + tail);
        assert(me.len() == 15 + da.len());
        assert(me[0] == 'P');
        assert(me[3] == 'g');
        if let Error::ProgramFailed(b) = f {
            let db = spec_decimal(b as nat);
            assert(mf == head + db + tail);
            assert(mf.len() == 15 + db.len());
            assert(me.subrange(14, 14 + da.len() as int) =~= da);
            assert(mf.subrange(14, 14 + db.len() as int) =~= db);
            lemma_decimal_injective(a as nat, b as nat);
        } else {
            assert(me[3] == mf[3]);
        }
    } else if let Error::ProgramFailed(b) = f {
        let db = spec_decimal(b as nat);
        lemma_decimal_len(b as nat);
        assert(mf == head + db + tail);
        assert(mf.len() == 15 + db.len());
        assert(mf[0] == 'P');
        assert(mf[3] == 'g');
        assert(me[3] == mf[3]);
    }
}

} // verus!