use crate::text::{clone_opt_text, opt_text};
use vstd::prelude::*;

verus! {

/// Cached metadata of one contract on one chain.
#[derive(Debug, PartialEq, Eq)]
pub struct ContractRecord {
    pub chain: String,
    pub address: String,
    pub name: Option<String>,
    /// The interface description, as JSON text.
    pub abi: Option<String>,
    pub label: Option<String>,
    pub src: Option<String>,
    /// Milliseconds at the last successful fetch; absent until then.
    pub updated_at: Option<u64>,
}

/// The mathematical content of a `ContractRecord`.
pub struct RecordView {
    pub chain: Seq<char>,
    pub address: Seq<char>,
    pub name: Option<Seq<char>>,
    pub abi: Option<Seq<char>>,
    pub label: Option<Seq<char>>,
    pub src: Option<Seq<char>>,
    pub updated_at: Option<u64>,
}

impl View for ContractRecord {
    type V = RecordView;

    open spec fn view(&self) -> RecordView {
        RecordView {
            chain: self.chain@,
            address: self.address@,
            name: opt_text(self.name),
            abi: opt_text(self.abi),
            label: opt_text(self.label),
            src: opt_text(self.src),
            updated_at: self.updated_at,
        }
    }
}

impl Clone for ContractRecord {
    fn clone(&self) -> (r: Self)
        ensures
            r == *self,
    {
        ContractRecord {
            chain: self.chain.clone(),
            address: self.address.clone(),
            name: clone_opt_text(&self.name),
            abi: clone_opt_text(&self.abi),
            label: clone_opt_text(&self.label),
            src: clone_opt_text(&self.src),
            updated_at: self.updated_at,
        }
    }
}

/// A record as list responses carry it: the source text is left out and only
/// its presence is told.
#[derive(Debug, PartialEq, Eq)]
pub struct RedactedRecord {
    pub chain: String,
    pub address: String,
    pub name: Option<String>,
    pub abi: Option<String>,
    pub label: Option<String>,
    pub has_src: bool,
    pub updated_at: Option<u64>,
}

/// The mathematical content of a `RedactedRecord`.
pub struct RedactedView {
    pub chain: Seq<char>,
    pub address: Seq<char>,
    pub name: Option<Seq<char>>,
    pub abi: Option<Seq<char>>,
    pub label: Option<Seq<char>>,
    pub has_src: bool,
    pub updated_at: Option<u64>,
}

impl View for RedactedRecord {
    type V = RedactedView;

    open spec fn view(&self) -> RedactedView {
        RedactedView {
            chain: self.chain@,
            address: self.address@,
            name: opt_text(self.name),
            abi: opt_text(self.abi),
            label: opt_text(self.label),
            has_src: self.has_src,
            updated_at: self.updated_at,
        }
    }
}

impl Clone for RedactedRecord {
    fn clone(&self) -> (r: Self)
        ensures
            r == *self,
    {
        RedactedRecord {
            chain: self.chain.clone(),
            address: self.address.clone(),
            name: clone_opt_text(&self.name),
            abi: clone_opt_text(&self.abi),
            label: clone_opt_text(&self.label),
            has_src: self.has_src,
            updated_at: self.updated_at,
        }
    }
}

/// A record with its source text replaced by a presence flag.
pub open spec fn redacted(r: RecordView) -> RedactedView {
    RedactedView {
        chain: r.chain,
        address: r.address,
        name: r.name,
        abi: r.abi,
        label: r.label,
        has_src: r.src is Some,
        updated_at: r.updated_at,
    }
}

/// A record is incomplete while its name or its source text is missing.
pub open spec fn incomplete(r: RecordView) -> bool {
    r.name is None || r.src is None
}

/// Whether `updated_at` lies more than `window` milliseconds before `now`.
/// A record that was never fetched is older than any window.
pub open spec fn outdated(updated_at: Option<u64>, now: u64, window: u64) -> bool {
    match updated_at {
        None => true,
        Some(t) => now - t > window,
    }
}

/// A record is stale, and fetched again, when it is incomplete and outdated.
pub open spec fn stale(r: RecordView, now: u64, window: u64) -> bool {
    incomplete(r) && outdated(r.updated_at, now, window)
}

impl ContractRecord {
    /// Drops the source text and keeps a flag that tells whether there was one.
    pub fn redact(&self) -> (r: RedactedRecord)
        ensures
            r@ == redacted(self@),
    {
        RedactedRecord {
            chain: self.chain.clone(),
            address: self.address.clone(),
            name: clone_opt_text(&self.name),
            abi: clone_opt_text(&self.abi),
            label: clone_opt_text(&self.label),
            has_src: self.src.is_some(),
            updated_at: self.updated_at,
        }
    }

    /// Decides whether the record is to be fetched again at time `now`.
    pub fn is_stale(&self, now: u64, window: u64) -> (r: bool)
        ensures
            r == stale(self@, now, window),
    {
        if self.name.is_some() && self.src.is_some() {
            return false;
        }
        match self.updated_at {
            None => true,
            Some(t) => now > t && now - t > window,
        }
    }
}

/// The flag of a redacted record tells of the source text only whether there
/// is one: two records that differ in nothing but the text of a source that
/// both have are redacted to the same value.
pub proof fn lemma_redaction_hides_source(a: RecordView, b: RecordView)
    requires
        a.src is Some <==> b.src is Some,
        a.chain == b.chain,
        a.address == b.address,
        a.name == b.name,
        a.abi == b.abi,
        a.label == b.label,
        a.updated_at == b.updated_at,
    ensures
        redacted(a) == redacted(b),
{
}

/// A record with both its name and its source text is never stale, whatever
/// its age.
pub proof fn lemma_complete_record_is_fresh(r: RecordView, now: u64, window: u64)
    requires
        r.name is Some,
        r.src is Some,
    ensures
        !stale(r, now, window),
{
}

} // verus!
