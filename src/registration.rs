//! Registration form entries and the registry records made of them.

use vstd::prelude::*;

verus! {

/// A registry record: the participant's contact and keys, and whether it
/// may contribute.
pub struct Record {
    pub twitter: String,
    pub email: String,
    pub made_contribution: bool,
    pub public_key: String,
    pub signature: String,
}

impl Record {
    /// Builds a record.
    pub fn new(
        twitter: String,
        email: String,
        made_contribution: bool,
        public_key: String,
        signature: String,
    ) -> (r: Self)
        ensures
            r == (Record { twitter, email, made_contribution, public_key, signature }),
    {
        Record { twitter, email, made_contribution, public_key, signature }
    }
}

/// An entry of the first registration form.
pub struct RegistrationInfoV1 {
    pub name: String,
    pub email: String,
    pub signature: String,
    pub verifying_key: String,
    pub twitter: String,
    pub why_privacy: String,
    pub wallet: String,
    pub score: String,
    pub twitter_null: String,
    pub verifying_key_null: String,
    pub discord: String,
    pub motivation: String,
    pub where_from: String,
    pub twitter_hidden: String,
    pub email_hidden: String,
    pub verifying_key_hidden: String,
    pub signature_hidden: String,
    pub submission_time: String,
    pub submission_token: String,
}

/// An entry of the second registration form.
pub struct RegistrationInfoV2 {
    pub name: String,
    pub comms_email: String,
    pub unused_signature: String,
    pub unused_verifying_key: String,
    pub discord: String,
    pub unused_twitter: String,
    pub why_privacy: String,
    pub motivation: String,
    pub where_from: String,
    pub wallet: String,
    pub heard_where: String,
    pub twitter: String,
    pub email: String,
    pub verifying_key: String,
    pub signature: String,
    pub submission_time: String,
    pub submission_token: String,
}

/// The record of an entry of the first form: its twitter, email, key and
/// signature, marked as allowed to contribute.
impl From<RegistrationInfoV1> for Record {
    fn from(value: RegistrationInfoV1) -> (r: Self) {
        Record::new(value.twitter, value.email, true, value.verifying_key, value.signature)
    }
}

impl vstd::std_specs::convert::FromSpecImpl<RegistrationInfoV1> for Record {
    open spec fn obeys_from_spec() -> bool {
        true
    }

    open spec fn from_spec(v: RegistrationInfoV1) -> Record {
        Record {
            twitter: v.twitter,
            email: v.email,
            made_contribution: true,
            public_key: v.verifying_key,
            signature: v.signature,
        }
    }
}

/// The record of an entry of the second form: its twitter, signing email,
/// key and signature, marked as allowed to contribute.
impl From<RegistrationInfoV2> for Record {
    fn from(value: RegistrationInfoV2) -> (r: Self) {
        Record::new(value.twitter, value.email, true, value.verifying_key, value.signature)
    }
}

impl vstd::std_specs::convert::FromSpecImpl<RegistrationInfoV2> for Record {
    open spec fn obeys_from_spec() -> bool {
        true
    }

    open spec fn from_spec(v: RegistrationInfoV2) -> Record {
        Record {
            twitter: v.twitter,
            email: v.email,
            made_contribution: true,
            public_key: v.verifying_key,
            signature: v.signature,
        }
    }
}

} // verus!
