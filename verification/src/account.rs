use vstd::prelude::*;

verus! {

/// An opaque participant identifier. The core assumes no structure beyond
/// equality, so the token is carried as its textual form and two identifiers
/// are the same participant exactly when their texts agree.
#[derive(Debug)]
pub struct AccountId {
    pub text: String,
}

impl View for AccountId {
    type V = Seq<char>;

    open spec fn view(&self) -> Seq<char> {
        self.text@
    }
}

impl AccountId {
    pub fn new(text: String) -> (r: AccountId)
        ensures
            r@ == text@,
    {
        AccountId { text }
    }

    /// The textual form, for a host that must address the participant.
    pub fn text(&self) -> (r: &String)
        ensures
            r@ == self@,
    {
        &self.text
    }
}

impl Clone for AccountId {
    fn clone(&self) -> (r: Self)
        ensures
            r@ == self@,
    {
        AccountId { text: self.text.clone() }
    }
}

impl PartialEq for AccountId {
    fn eq(&self, other: &Self) -> bool {
        self.text == other.text
    }
}

impl Eq for AccountId {}

impl vstd::std_specs::cmp::PartialEqSpecImpl for AccountId {
    open spec fn obeys_eq_spec() -> bool {
        true
    }

    open spec fn eq_spec(&self, other: &AccountId) -> bool {
        self@ == other@
    }
}

} // verus!
