//! The field names that the envelope code writes itself.

use vstd::prelude::*;

verus! {

/// Name of the scheme that produced a record.
pub const PROVIDER: &'static str = "provider";

/// Version of the scheme that produced a record.
pub const VERSION: &'static str = "version";

/// When the record was first produced.
pub const CREATED: &'static str = "created";

/// When the record was last signed.
pub const MODIFIED: &'static str = "modified";

/// The digital signature of the record.
pub const SIGNATURE: &'static str = "signature";

/// The keyed-MAC signature of the record.
pub const SIGNATURE_SYM: &'static str = "signature_sym";

/// The public key that goes with the digital signature.
pub const SIGNING_PUBLIC_KEY: &'static str = "signing_public_key";

/// The public key that goes with the security attestation.
pub const SECURITY_SIGNING_PUBLIC_KEY: &'static str = "security_signing_public_key";

/// The security attestation of the record.
pub const ASSUMED_SECURE: &'static str = "assumed_secure";

/// The names reserved for metadata. Payload fields do not use them.
pub open spec fn is_reserved(name: Seq<char>) -> bool {
    name == PROVIDER@ || name == VERSION@ || name == CREATED@ || name == MODIFIED@ || name
        == SIGNATURE@ || name == SIGNATURE_SYM@ || name == SIGNING_PUBLIC_KEY@ || name
        == SECURITY_SIGNING_PUBLIC_KEY@ || name == ASSUMED_SECURE@
}

/// The reserved names differ from one another.
pub proof fn lemma_reserved_distinct()
    ensures
        PROVIDER@ != VERSION@,
        PROVIDER@ != CREATED@,
        VERSION@ != CREATED@,
        MODIFIED@ != SIGNATURE_SYM@,
        MODIFIED@ != SIGNATURE@,
        MODIFIED@ != SIGNING_PUBLIC_KEY@,
        SIGNATURE@ != SIGNING_PUBLIC_KEY@,
        MODIFIED@ != SECURITY_SIGNING_PUBLIC_KEY@,
        MODIFIED@ != ASSUMED_SECURE@,
        SECURITY_SIGNING_PUBLIC_KEY@ != ASSUMED_SECURE@,
        SIGNATURE@ != ASSUMED_SECURE@,
        SIGNATURE@ != SECURITY_SIGNING_PUBLIC_KEY@,
        SIGNING_PUBLIC_KEY@ != ASSUMED_SECURE@,
        SIGNING_PUBLIC_KEY@ != SECURITY_SIGNING_PUBLIC_KEY@,
        SIGNATURE_SYM@ != ASSUMED_SECURE@,
        PROVIDER@ != SIGNATURE_SYM@ && VERSION@ != SIGNATURE_SYM@ && CREATED@ != SIGNATURE_SYM@,
        PROVIDER@ != SIGNATURE@ && VERSION@ != SIGNATURE@ && CREATED@ != SIGNATURE@,
        PROVIDER@ != ASSUMED_SECURE@ && VERSION@ != ASSUMED_SECURE@ && CREATED@ != ASSUMED_SECURE@,
{
    reveal_strlit("provider");
    reveal_strlit("version");
    reveal_strlit("created");
    reveal_strlit("modified");
    reveal_strlit("signature");
    reveal_strlit("signature_sym");
    reveal_strlit("signing_public_key");
    reveal_strlit("security_signing_public_key");
    reveal_strlit("assumed_secure");
    assert(PROVIDER@[0] == 'p' && VERSION@[0] == 'v' && CREATED@[0] == 'c');
    assert(SIGNATURE@[0] == 's' && SIGNATURE_SYM@[0] == 's' && ASSUMED_SECURE@[0] == 'a');
    assert(PROVIDER@[0] != VERSION@[0]);
    assert(PROVIDER@[0] != CREATED@[0]);
    assert(VERSION@[0] != CREATED@[0]);
    assert(MODIFIED@[0] != SIGNATURE_SYM@[0]);
    assert(SIGNATURE@.len() != SIGNING_PUBLIC_KEY@.len());
    assert(SECURITY_SIGNING_PUBLIC_KEY@[0] != ASSUMED_SECURE@[0]);
    assert(SIGNATURE@[0] != ASSUMED_SECURE@[0]);
    assert(SIGNATURE@.len() != SECURITY_SIGNING_PUBLIC_KEY@.len());
    assert(SIGNING_PUBLIC_KEY@.len() != SECURITY_SIGNING_PUBLIC_KEY@.len());
}

/// A name that begins unlike every reserved name is not reserved.
pub proof fn lemma_not_reserved(name: Seq<char>)
    requires
        name.len() >= 2,
        !(name[0] == 'p' && name[1] == 'r'),
        !(name[0] == 'v' && name[1] == 'e'),
        !(name[0] == 'c' && name[1] == 'r'),
        !(name[0] == 'm' && name[1] == 'o'),
        !(name[0] == 's' && name[1] == 'i'),
        !(name[0] == 's' && name[1] == 'e'),
        !(name[0] == 'a' && name[1] == 's'),
    ensures
        !is_reserved(name),
{
    reveal_strlit("provider");
    reveal_strlit("version");
    reveal_strlit("created");
    reveal_strlit("modified");
    reveal_strlit("signature");
    reveal_strlit("signature_sym");
    reveal_strlit("signing_public_key");
    reveal_strlit("security_signing_public_key");
    reveal_strlit("assumed_secure");
    assert(PROVIDER@[0] == 'p' && PROVIDER@[1] == 'r');
    assert(VERSION@[0] == 'v' && VERSION@[1] == 'e');
    assert(CREATED@[0] == 'c' && CREATED@[1] == 'r');
    assert(MODIFIED@[0] == 'm' && MODIFIED@[1] == 'o');
    assert(SIGNATURE@[0] == 's' && SIGNATURE@[1] == 'i');
    assert(SIGNATURE_SYM@[0] == 's' && SIGNATURE_SYM@[1] == 'i');
    assert(SIGNING_PUBLIC_KEY@[0] == 's' && SIGNING_PUBLIC_KEY@[1] == 'i');
    assert(SECURITY_SIGNING_PUBLIC_KEY@[0] == 's' && SECURITY_SIGNING_PUBLIC_KEY@[1] == 'e');
    assert(ASSUMED_SECURE@[0] == 'a' && ASSUMED_SECURE@[1] == 's');
}

} // verus!
