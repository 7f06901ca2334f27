//! The accepted-extensions set, fixed for the duration of a run.

use vstd::prelude::*;
use crate::text::{lower_char, lower_seq, to_lowercase};

verus! {

/// The set of file extensions a run accepts, held lower-cased and without
/// duplicates.  Membership tests are case-insensitive over the ASCII letters.
pub struct Config {
    pub extensions: Vec<String>,
}

/// Lower-casing a character twice is the same as doing it once.
proof fn lemma_lower_char_idempotent(c: char)
    ensures
        lower_char(lower_char(c)) == lower_char(c),
{
}

/// Lower-casing a sequence twice is the same as doing it once.
pub proof fn lemma_lower_seq_idempotent(s: Seq<char>)
    ensures
        lower_seq(lower_seq(s)) == lower_seq(s),
{
    assert forall|i: int| 0 <= i < s.len() implies lower_seq(lower_seq(s))[i] == lower_seq(
        s,
    )[i] by {
        lemma_lower_char_idempotent(s[i]);
    }
    assert(lower_seq(lower_seq(s)) =~= lower_seq(s));
}

impl Config {
    /// The accepted extensions as a set of character sequences.
    pub open spec fn accepted(&self) -> Set<Seq<char>> {
        Set::new(
            |e: Seq<char>|
                exists|i: int| 0 <= i < self.extensions@.len() && #[trigger] self.extensions@[i]@ == e,
        )
    }

    /// Every stored extension is lower-cased, and none occurs twice.
    pub open spec fn wf(&self) -> bool {
        &&& forall|i: int|
            0 <= i < self.extensions@.len() ==> #[trigger] self.extensions@[i]@ == lower_seq(
                self.extensions@[i]@,
            )
        &&& forall|i: int, j: int|
            0 <= i < j < self.extensions@.len() ==> self.extensions@[i]@ != self.extensions@[j]@
    }

    /// Builds the accepted set from raw extension strings: each is
    /// lower-cased, and duplicates collapse to one entry.
    pub fn new(raw: &Vec<String>) -> (c: Config)
        ensures
            c.wf(),
            forall|e: Seq<char>|
                #[trigger] c.accepted().contains(e) <==> exists|i: int|
                    0 <= i < raw@.len() && lower_seq(#[trigger] raw@[i]@) == e,
    {
        let mut extensions: Vec<String> = Vec::new();
        let n = raw.len();
        let mut i: usize = 0;
        while i < n
            invariant
                i <= n,
                n == raw@.len(),
                forall|k: int|
                    0 <= k < extensions@.len() ==> #[trigger] extensions@[k]@ == lower_seq(
                        extensions@[k]@,
                    ),
                forall|k: int, l: int|
                    0 <= k < l < extensions@.len() ==> extensions@[k]@ != extensions@[l]@,
                forall|k: int|
                    0 <= k < extensions@.len() ==> exists|j: int|
                        0 <= j < i && lower_seq(raw@[j]@) == #[trigger] extensions@[k]@,
                forall|j: int|
                    0 <= j < i ==> exists|k: int|
                        0 <= k < extensions@.len() && #[trigger] extensions@[k]@ == lower_seq(
                            #[trigger] raw@[j]@,
                        ),
            decreases n - i,
        {
            let low = to_lowercase(raw[i].as_str());
            proof {
                lemma_lower_seq_idempotent(raw@[i as int]@);
            }
            let mut present = false;
            let m = extensions.len();
            let mut k: usize = 0;
            while k < m
                invariant
                    k <= m,
                    m == extensions@.len(),
                    present <==> exists|l: int|
                        0 <= l < k && #[trigger] extensions@[l]@ == low@,
                decreases m - k,
            {
                if low.eq(&extensions[k]) {
                    present = true;
                }
                k = k + 1;
            }
            let ghost prev = extensions@;
            if !present {
                extensions.push(low);
            }
            proof {
                assert forall|j: int| 0 <= j < i + 1 implies exists|k: int|
                    0 <= k < extensions@.len() && extensions@[k]@ == lower_seq(
                        #[trigger] raw@[j]@,
                    ) by {
                    if j < i {
                        let k = choose|k: int|
                            0 <= k < prev.len() && #[trigger] prev[k]@ == lower_seq(raw@[j]@);
                        assert(extensions@[k]@ == lower_seq(raw@[j]@));
                    } else if present {
                        let l = choose|l: int|
                            0 <= l < prev.len() && #[trigger] prev[l]@ == lower_seq(raw@[i as int]@);
                        assert(extensions@[l]@ == lower_seq(raw@[i as int]@));
                    } else {
                        assert(extensions@[extensions@.len() - 1]@ == lower_seq(raw@[i as int]@));
                    }
                }
            }
            i = i + 1;
        }
        Config { extensions }
    }

    /// Whether `ext`, lower-cased, is an accepted extension.
    pub fn accepts(&self, ext: &str) -> (b: bool)
        ensures
            b == self.accepted().contains(lower_seq(ext@)),
    {
        let low = to_lowercase(ext);
        let n = self.extensions.len();
        let mut i: usize = 0;
        while i < n
            invariant
                i <= n,
                n == self.extensions@.len(),
                low@ == lower_seq(ext@),
                forall|k: int| 0 <= k < i ==> #[trigger] self.extensions@[k]@ != low@,
            decreases n - i,
        {
            if low.eq(&self.extensions[i]) {
                return true;
            }
            i = i + 1;
        }
        false
    }
}

} // verus!
