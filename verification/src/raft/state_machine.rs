//! The state machine that committed payloads are delivered to.
use vstd::prelude::*;
use crate::raft::json::{from_str_payloads, json_payloads, payloads_json, to_string_payloads};

verus! {

/// A deterministic state machine supplied by the user of the library.
///
/// `apply` is called once for every committed entry of kind `Data`, in index order.
/// `take_snapshot` writes the full state to the given path; `restore_snapshot`
/// replaces the state by what the file at the given path holds.
pub trait StateMachine {
    fn apply(&mut self, data: &Vec<u8>);

    fn take_snapshot(&mut self, snapshot_filepath: &str);

    fn restore_snapshot(&mut self, snapshot_filepath: &str);
}

/// A state machine that keeps every payload it was given, in order.
#[derive(Debug)]
pub struct SimpleStateMachine {
    entries: Vec<Vec<u8>>,
}

impl View for SimpleStateMachine {
    type V = Seq<Seq<u8>>;

    closed spec fn view(&self) -> Seq<Seq<u8>> {
        self.entries.deep_view()
    }
}

impl Default for SimpleStateMachine {
    fn default() -> (r: Self)
        ensures
            r@.len() == 0,
    {
        SimpleStateMachine::new()
    }
}

/// The text that `String::from_utf8_lossy` makes of `bytes`.
pub uninterp spec fn lossy_utf8(bytes: Seq<u8>) -> Seq<char>;

/// Calls `String::from_utf8_lossy` on `bytes` and takes ownership of the text.
///
/// Trusted: the text returned is the one named `lossy_utf8`.
#[verifier::external_body]
fn lossy_text(bytes: &Vec<u8>) -> (r: String)
    ensures
        r@ == lossy_utf8(bytes@),
{
    String::from_utf8_lossy(bytes).into_owned()
}

impl SimpleStateMachine {
    /// A state machine that holds nothing.
    pub fn new() -> (r: Self)
        ensures
            r@.len() == 0,
    {
        SimpleStateMachine { entries: Vec::new() }
    }

    /// The payloads held, each as text, invalid UTF-8 replaced.
    pub fn get_entries(&self) -> (r: Vec<String>)
        ensures
            r.len() == self@.len(),
            forall|i: int| 0 <= i < r.len() ==> (#[trigger] r[i])@ == lossy_utf8(self@[i]),
    {
        let mut out: Vec<String> = Vec::new();
        let mut i: usize = 0;
        while i < self.entries.len()
            invariant
                i <= self.entries.len(),
                out.len() == i,
                forall|j: int| 0 <= j < i ==> (#[trigger] out[j])@ == lossy_utf8(self@[j]),
            decreases self.entries.len() - i,
        {
            assert(self@[i as int] =~= self.entries[i as int]@);
            out.push(lossy_text(&self.entries[i]));
            i += 1;
        }
        out
    }

    /// Appends `data` to the payloads held.
    pub fn apply(&mut self, data: &Vec<u8>)
        ensures
            final(self)@ == old(self)@.push(data@),
    {
        let ghost before = self@;
        let copy = data.clone();
        assert(copy.deep_view() =~= data@);
        self.entries.push(copy);
        assert(self@ =~= before.push(data@));
    }

    /// The JSON text that a snapshot of this state consists of.
    pub fn snapshot_text(&self) -> (r: String)
        ensures
            r@ == payloads_json(self@),
    {
        match to_string_payloads(&self.entries) {
            Ok(text) => text,
            Err(_) => String::new(),
        }
    }

    /// Replaces the state by the one that `text` encodes. Returns whether `text`
    /// encoded a state; the state is unchanged where it did not.
    pub fn restore_from_text(&mut self, text: &str) -> (restored: bool)
        ensures
            restored == json_payloads(text@) is Some,
            final(self)@ == match json_payloads(text@) {
                Some(payloads) => payloads,
                None => old(self)@,
            },
    {
        match from_str_payloads(text) {
            Ok(entries) => {
                self.entries = entries;
                true
            },
            Err(_) => false,
        }
    }
}

} // verus!
