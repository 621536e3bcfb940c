//! The disclosure policy: which request header carries the secret, and which
//! fields of the response are revealed.

use vstd::prelude::*;
use vstd::utf8::encode_utf8;

verus! {

/// What of the secret-bearing header stays hidden. Everything else of the
/// sent transcript is revealed.
#[derive(Clone, Copy, Debug, PartialEq, Eq, Structural)]
pub enum HeaderConstraint {
    /// The whole field value.
    HideValue,
    /// The credentials of a value of the form `scheme SP credentials`; the
    /// scheme is revealed.
    HideCredentials,
}

/// What of a response field is revealed.
#[derive(Clone, Copy, Debug, PartialEq, Eq, Structural)]
pub enum FieldConstraint {
    /// From the quote that opens the member's name to the end of its value,
    /// the closing quote of a string included.
    RevealKeyAndValue,
    /// The value alone, a string with its quotes.
    RevealValue,
}

#[derive(Debug)]
pub struct HeaderRule {
    /// The header's name; it is matched without regard to ASCII case.
    pub name: String,
    pub constraint: HeaderConstraint,
}

#[derive(Debug)]
pub struct FieldRule {
    /// The dotted path of a scalar field of the response body.
    pub path: String,
    pub constraint: FieldConstraint,
}

/// The policy of a deployment. It is fixed before any session starts.
#[derive(Debug)]
pub struct DisclosurePolicy {
    pub secret: HeaderRule,
    pub fields: Vec<FieldRule>,
}

pub struct HeaderRuleView {
    pub name: Seq<u8>,
    pub constraint: HeaderConstraint,
}

pub struct FieldRuleView {
    pub path: Seq<u8>,
    pub constraint: FieldConstraint,
}

pub struct PolicyView {
    pub secret: HeaderRuleView,
    pub fields: Seq<FieldRuleView>,
}

impl View for HeaderRule {
    type V = HeaderRuleView;

    open spec fn view(&self) -> HeaderRuleView {
        HeaderRuleView { name: encode_utf8(self.name@), constraint: self.constraint }
    }
}

impl View for FieldRule {
    type V = FieldRuleView;

    open spec fn view(&self) -> FieldRuleView {
        FieldRuleView { path: encode_utf8(self.path@), constraint: self.constraint }
    }
}

impl View for DisclosurePolicy {
    type V = PolicyView;

    open spec fn view(&self) -> PolicyView {
        PolicyView { secret: self.secret@, fields: self.fields@.map_values(|r: FieldRule| r@) }
    }
}

impl HeaderRule {
    pub fn new(name: &str, constraint: HeaderConstraint) -> (rule: HeaderRule)
        ensures
            rule.name@ == name@,
            rule.constraint == constraint,
    {
        HeaderRule { name: name.to_owned(), constraint }
    }
}

impl FieldRule {
    pub fn new(path: &str, constraint: FieldConstraint) -> (rule: FieldRule)
        ensures
            rule.path@ == path@,
            rule.constraint == constraint,
    {
        FieldRule { path: path.to_owned(), constraint }
    }
}

/// The policy for the account statement of the demo bank: the five fields
/// that are revealed, in this order.
pub open spec fn bank_statement_fields() -> Seq<FieldRuleView> {
    seq![
        FieldRuleView {
            path: encode_utf8("organization"@),
            constraint: FieldConstraint::RevealKeyAndValue,
        },
        FieldRuleView {
            path: encode_utf8("bank"@),
            constraint: FieldConstraint::RevealKeyAndValue,
        },
        FieldRuleView {
            path: encode_utf8("accounts.USD"@),
            constraint: FieldConstraint::RevealKeyAndValue,
        },
        FieldRuleView {
            path: encode_utf8("accounts.EUR"@),
            constraint: FieldConstraint::RevealKeyAndValue,
        },
        FieldRuleView {
            path: encode_utf8("accounts.CHF"@),
            constraint: FieldConstraint::RevealKeyAndValue,
        },
    ]
}

impl DisclosurePolicy {
    pub fn new(secret: HeaderRule, fields: Vec<FieldRule>) -> (policy: DisclosurePolicy)
        ensures
            policy.secret == secret,
            policy.fields == fields,
    {
        DisclosurePolicy { secret, fields }
    }

    /// The policy for the account statement of the demo bank: the value of
    /// `authorization` is hidden, and `organization`, `bank` and the three
    /// balances under `accounts` are revealed.
    pub fn bank_statement() -> (policy: DisclosurePolicy)
        ensures
            policy@.secret == (HeaderRuleView {
                name: encode_utf8("authorization"@),
                constraint: HeaderConstraint::HideValue,
            }),
            policy@.fields == bank_statement_fields(),
    {
        let mut fields: Vec<FieldRule> = Vec::new();
        fields.push(FieldRule::new("organization", FieldConstraint::RevealKeyAndValue));
        fields.push(FieldRule::new("bank", FieldConstraint::RevealKeyAndValue));
        fields.push(FieldRule::new("accounts.USD", FieldConstraint::RevealKeyAndValue));
        fields.push(FieldRule::new("accounts.EUR", FieldConstraint::RevealKeyAndValue));
        fields.push(FieldRule::new("accounts.CHF", FieldConstraint::RevealKeyAndValue));
        let policy = DisclosurePolicy {
            secret: HeaderRule::new("authorization", HeaderConstraint::HideValue),
            fields,
        };
        assert(policy@.fields =~= bank_statement_fields());
        policy
    }
}

} // verus!
