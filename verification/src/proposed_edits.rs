//! Requests by which users propose edits to the data.
use std::path::Path;
use vstd::prelude::*;

verus! {

/// A path in the file system, `std::path::Path`: carried through, never
/// looked into.
#[verifier::external_type_specification]
#[verifier::external_body]
pub struct ExPath(Path);

/// One proposed edit to an entry.
#[derive(Clone, Copy, Debug)]
pub struct Edit {}

/// An edit that can be applied to the data below a directory.
pub trait AppliableEdit {
    /// Applies the edit to the entry `key` in the data below `base_dir` and
    /// returns a description of what was changed.
    fn apply(&self, key: &str, base_dir: &Path) -> String;
}

/// A request to apply a set of edits, each under the key of the entry it
/// concerns.
pub struct EditRequest {
    pub token: String,
    pub edits: Vec<(String, Edit)>,
    pub additional_context: String,
    pub privacy_checked: bool,
}

/// `found` is what `extractor` made of the first `n` of `entries`: `picks`
/// are the places, in rising order, of the entries that it took; each stands
/// in `found` under its key as what `extractor` made of it; and every entry
/// at another place is one that `extractor` did not take.
pub open spec fn is_extraction<T, F: Fn(Edit) -> Option<T>>(
    entries: Seq<(String, Edit)>,
    extractor: F,
    n: int,
    picks: Seq<int>,
    found: Seq<(String, T)>,
) -> bool {
    &&& picks.len() == found.len()
    &&& forall|k: int| 0 <= k < picks.len() ==> 0 <= #[trigger] picks[k] < n
    &&& forall|k: int, l: int|
        0 <= k < l < picks.len() ==> #[trigger] picks[k] < #[trigger] picks[l]
    &&& forall|k: int|
        0 <= k < picks.len() ==> (#[trigger] found[k]).0 == entries[picks[k]].0 && call_ensures(
            extractor,
            (entries[picks[k]].1,),
            Some(found[k].1),
        )
    &&& forall|i: int|
        0 <= i < n && !picks.contains(i) ==> call_ensures(
            extractor,
            ((#[trigger] entries[i]).1,),
            None::<T>,
        )
}

impl EditRequest {
    /// No key stands twice among the edits.
    pub open spec fn wf(&self) -> bool {
        forall|i: int, j: int|
            0 <= i < j < self.edits@.len() ==> (#[trigger] self.edits@[i]).0@
                != (#[trigger] self.edits@[j]).0@
    }

    /// Those of the request's edits that `extractor` takes, each under its
    /// key as what `extractor` made of it, in the order of the edits.
    pub fn edits_for<T: AppliableEdit, F: Fn(Edit) -> Option<T>>(&self, extractor: F) -> (found:
        Vec<(String, T)>)
        requires
            forall|edit: Edit| call_requires(extractor, (edit,)),
        ensures
            exists|picks: Seq<int>| #[trigger]
                is_extraction(self.edits@, extractor, self.edits@.len() as int, picks, found@),
    {
        let mut found: Vec<(String, T)> = Vec::new();
        let ghost mut picks: Seq<int> = Seq::empty();
        let mut i: usize = 0;
        while i < self.edits.len()
            invariant
                i <= self.edits@.len(),
                forall|edit: Edit| call_requires(extractor, (edit,)),
                is_extraction(self.edits@, extractor, i as int, picks, found@),
            decreases self.edits@.len() - i,
        {
            let ghost before = picks;
            let ghost had = found@;
            match extractor(self.edits[i].1) {
                Some(taken) => {
                    found.push((self.edits[i].0.clone(), taken));
                    proof {
                        picks = before.push(i as int);
                        assert forall|j: int|
                            0 <= j < i + 1 && !picks.contains(j) implies call_ensures(
                            extractor,
                            ((#[trigger] self.edits@[j]).1,),
                            None::<T>,
                        ) by {
                            assert(picks[before.len() as int] == i);
                            if before.contains(j) {
                                let k = choose|k: int| 0 <= k < before.len() && before[k] == j;
                                assert(picks[k] == j);
                            }
                        }
                        assert forall|k: int| 0 <= k < picks.len() implies (#[trigger] found@[k]).0
                            == self.edits@[picks[k]].0 && call_ensures(
                            extractor,
                            (self.edits@[picks[k]].1,),
                            Some(found@[k].1),
                        ) by {
                            if k < before.len() {
                                assert(found@[k] == had[k]);
                                assert(picks[k] == before[k]);
                            }
                        }
                    }
                },
                None => {},
            }
            i = i + 1;
        }
        found
    }

    /// The labels under which the request is filed: the single label
    /// `webform`.
    pub fn extract_labels(&self) -> (labels: Vec<String>)
        ensures
            labels@.len() == 1,
            labels@[0]@ == "webform"@,
    {
        let mut labels: Vec<String> = Vec::new();
        labels.push("webform".to_string());
        labels
    }

    /// The subject line of the request.
    pub fn extract_subject(&self) -> (subject: String)
        ensures
            subject@ == "No Edits"@,
    {
        "No Edits".to_string()
    }
}

} // verus!
