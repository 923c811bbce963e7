//! Pattern resolution: a curated registry of known patterns plus
//! synthesis of metadata for novel labels through the abstract scorer.
//!
//! A lookup of a curated label returns a value-equal copy of the fixed
//! entry; any other label is scored over the given features and the
//! metadata is derived from the score by the exact rules stated in the
//! contracts. Synthesized metadata is never cached.

use vstd::prelude::*;
use vstd::string::StringExecFns;

use crate::num::SCALE;
use crate::onnx_client::{InferError, OnnxClient, default_model_stub, stub_score};
use crate::text::{fx3_text, fx3_text_of, str_eq};

verus! {

/// Interpretive metadata for a known or inferred pattern.
///
/// `strength` and `confidence` lie in `[0, SCALE]` and `polarity` in
/// `[-SCALE, SCALE]`, the fixed-point images of `[0, 1]` and `[-1, 1]`.
pub struct PatternMeta {
    /// Pattern label.
    pub name: String,
    /// Human-readable description.
    pub description: String,
    /// Tags for categorization, such as reversal or continuation.
    pub tags: Vec<String>,
    /// Normalized strength of the pattern.
    pub strength: i64,
    /// Bearish to bullish polarity.
    pub polarity: i64,
    /// Suggested action: buy, sell or hold.
    pub action: String,
    /// Confidence in the suggestion.
    pub confidence: i64,
    /// Feature vector used for inference; empty for curated patterns.
    pub features: Vec<i64>,
}

/// Field-wise value equality of two metadata records.
pub open spec fn meta_like(a: PatternMeta, b: PatternMeta) -> bool {
    &&& a.name@ == b.name@
    &&& a.description@ == b.description@
    &&& a.tags@.len() == b.tags@.len()
    &&& forall|i: int| 0 <= i < a.tags@.len() ==> a.tags@[i]@ == b.tags@[i]@
    &&& a.strength == b.strength
    &&& a.polarity == b.polarity
    &&& a.action@ == b.action@
    &&& a.confidence == b.confidence
    &&& a.features@ == b.features@
}

/// A curated entry with every field fixed: its label, description,
/// two tags, strength, polarity, action and confidence, and no
/// feature vector.
pub open spec fn curated_entry(
    m: PatternMeta,
    name: Seq<char>,
    description: Seq<char>,
    tag0: Seq<char>,
    tag1: Seq<char>,
    strength: int,
    polarity: int,
    action: Seq<char>,
    confidence: int,
) -> bool {
    &&& m.name@ == name
    &&& m.description@ == description
    &&& m.tags@.len() == 2
    &&& m.tags@[0]@ == tag0
    &&& m.tags@[1]@ == tag1
    &&& m.strength == strength
    &&& m.polarity == polarity
    &&& m.action@ == action
    &&& m.confidence == confidence
    &&& m.features@.len() == 0
}

/// Whether a label names a curated entry of the registry.
pub open spec fn label_known(lib: Seq<PatternMeta>, name: Seq<char>) -> bool {
    exists|i: int| 0 <= i < lib.len() && lib[i].name@ == name
}

/// A value-equal copy of a vector of strings.
fn clone_strings(v: &Vec<String>) -> (r: Vec<String>)
    ensures
        r@.len() == v@.len(),
        forall|i: int| 0 <= i < v@.len() ==> r@[i]@ == v@[i]@,
{
    let mut r: Vec<String> = Vec::new();
    let mut i: usize = 0;
    while i < v.len()
        invariant
            0 <= i <= v@.len(),
            r@.len() == i,
            forall|j: int| 0 <= j < i ==> r@[j]@ == v@[j]@,
        decreases v@.len() - i,
    {
        r.push(v[i].clone());
        i = i + 1;
    }
    r
}

/// A value-equal copy of a feature vector.
fn clone_features(v: &Vec<i64>) -> (r: Vec<i64>)
    ensures
        r@ == v@,
{
    let mut r: Vec<i64> = Vec::new();
    let mut i: usize = 0;
    while i < v.len()
        invariant
            0 <= i <= v@.len(),
            r@ =~= v@.subrange(0, i as int),
        decreases v@.len() - i,
    {
        r.push(v[i]);
        i = i + 1;
    }
    proof {
        assert(v@.subrange(0, v@.len() as int) =~= v@);
    }
    r
}

impl PatternMeta {
    /// A value-equal copy of this record.
    pub fn duplicate(&self) -> (r: PatternMeta)
        ensures
            meta_like(r, *self),
    {
        PatternMeta {
            name: self.name.clone(),
            description: self.description.clone(),
            tags: clone_strings(&self.tags),
            strength: self.strength,
            polarity: self.polarity,
            action: self.action.clone(),
            confidence: self.confidence,
            features: clone_features(&self.features),
        }
    }
}

/// The registry of curated patterns and the scorer for novel ones.
pub struct PatternLibrary {
    /// Curated entries; labels are distinct.
    pub known: Vec<PatternMeta>,
    /// Scoring backend for labels not in the registry.
    pub ml_client: OnnxClient,
}

/// The derived metadata of a synthesized pattern for a given label,
/// score and feature vector.
pub open spec fn synthesized_like(
    r: PatternMeta,
    name: Seq<char>,
    score: int,
    features: Seq<i64>,
) -> bool {
    &&& r.name@ == name
    &&& r.description@ == "Synthesized pattern inferred by ML with score "@ + fx3_text(score)
    &&& r.tags@.len() == 1
    &&& r.tags@[0]@ == if score > 0 {
        "bullish"@
    } else {
        "bearish"@
    }
    &&& r.strength == if score < 0 {
        -score
    } else {
        score
    }
    &&& r.polarity == score
    &&& r.action@ == if score > SCALE / 5 {
        "buy"@
    } else if score < -(SCALE / 5) {
        "sell"@
    } else {
        "hold"@
    }
    &&& r.confidence == if (r.strength * 9) / 10 > SCALE {
        SCALE as int
    } else {
        (r.strength * 9) / 10
    }
    &&& r.features@ == features
}

impl PatternLibrary {
    /// Well-formedness: curated labels are distinct, so a label finds
    /// at most one entry.
    pub open spec fn wf(&self) -> bool {
        forall|i: int, j: int|
            0 <= i < j < self.known@.len() ==> self.known@[i].name@ != self.known@[j].name@
    }

    /// Build the registry of curated patterns over a scorer for the
    /// given model path. The three canonical entries are fixed at
    /// startup and immutable afterwards, every field pinned.
    pub fn new(model_path: &str) -> (r: Result<PatternLibrary, InferError>)
        ensures
            r matches Ok(lib) && lib.wf() && lib.known@.len() == 3 && curated_entry(
                lib.known@[0],
                "double_top"@,
                "Two peaks at similar levels followed by a drop"@,
                "reversal"@,
                "bearish"@,
                850_000_000,
                -900_000_000,
                "sell"@,
                900_000_000,
            ) && curated_entry(
                lib.known@[1],
                "double_bottom"@,
                "Two troughs at similar levels followed by a rise"@,
                "reversal"@,
                "bullish"@,
                800_000_000,
                900_000_000,
                "buy"@,
                880_000_000,
            ) && curated_entry(
                lib.known@[2],
                "head_and_shoulders"@,
                "Classic reversal pattern with a higher peak between two lower peaks"@,
                "reversal"@,
                "bearish"@,
                820_000_000,
                -800_000_000,
                "sell"@,
                870_000_000,
            ),
    {
        let ml_client = match OnnxClient::new(model_path) {
            Ok(c) => c,
            Err(e) => {
                return Err(e);
            },
        };
        let mut known: Vec<PatternMeta> = Vec::new();
        let mut tags0: Vec<String> = Vec::new();
        tags0.push(String::from_str("reversal"));
        tags0.push(String::from_str("bearish"));
        known.push(
            PatternMeta {
                name: String::from_str("double_top"),
                description: String::from_str("Two peaks at similar levels followed by a drop"),
                tags: tags0,
                strength: 850_000_000,
                polarity: -900_000_000,
                action: String::from_str("sell"),
                confidence: 900_000_000,
                features: Vec::new(),
            },
        );
        let mut tags1: Vec<String> = Vec::new();
        tags1.push(String::from_str("reversal"));
        tags1.push(String::from_str("bullish"));
        known.push(
            PatternMeta {
                name: String::from_str("double_bottom"),
                description: String::from_str("Two troughs at similar levels followed by a rise"),
                tags: tags1,
                strength: 800_000_000,
                polarity: 900_000_000,
                action: String::from_str("buy"),
                confidence: 880_000_000,
                features: Vec::new(),
            },
        );
        let mut tags2: Vec<String> = Vec::new();
        tags2.push(String::from_str("reversal"));
        tags2.push(String::from_str("bearish"));
        known.push(
            PatternMeta {
                name: String::from_str("head_and_shoulders"),
                description: String::from_str(
                    "Classic reversal pattern with a higher peak between two lower peaks",
                ),
                tags: tags2,
                strength: 820_000_000,
                polarity: -800_000_000,
                action: String::from_str("sell"),
                confidence: 870_000_000,
                features: Vec::new(),
            },
        );
        proof {
            reveal_strlit("double_top");
            reveal_strlit("double_bottom");
            reveal_strlit("head_and_shoulders");
            assert(known@.len() == 3);
            assert(known@[0].name@ == "double_top"@);
            assert(known@[1].name@ == "double_bottom"@);
            assert(known@[2].name@ == "head_and_shoulders"@);
            assert(known@[0].name@.len() == 10);
            assert(known@[1].name@.len() == 13);
            assert(known@[2].name@.len() == 18);
        }
        Ok(PatternLibrary { known, ml_client })
    }

    /// Whether the label names a curated entry.
    pub fn is_known(&self, pattern_name: &str) -> (r: bool)
        ensures
            r == label_known(self.known@, pattern_name@),
    {
        let mut i: usize = 0;
        while i < self.known.len()
            invariant
                0 <= i <= self.known@.len(),
                forall|j: int| 0 <= j < i ==> self.known@[j].name@ != pattern_name@,
            decreases self.known@.len() - i,
        {
            if str_eq(self.known[i].name.as_str(), pattern_name) {
                return true;
            }
            i = i + 1;
        }
        false
    }

    /// Resolve a label: a curated label returns a value-equal copy of
    /// its fixed entry; a novel one is scored over the features (an
    /// empty or missing vector scores zero) and the metadata is
    /// synthesized from the score. Resolution fails only if the scorer
    /// fails, and the stub scorer never does.
    pub fn lookup_or_infer(&self, pattern_name: &str, features: Option<&Vec<i64>>) -> (r: Result<
        PatternMeta,
        InferError,
    >)
        requires
            self.wf(),
        ensures
            r is Ok,
            label_known(self.known@, pattern_name@) ==> (forall|i: int|
                0 <= i < self.known@.len() && self.known@[i].name@ == pattern_name@ ==> meta_like(
                    r->Ok_0,
                    self.known@[i],
                )),
            !label_known(self.known@, pattern_name@) ==> synthesized_like(
                r->Ok_0,
                pattern_name@,
                stub_score(
                    match features {
                        Some(f) => f@,
                        None => Seq::empty(),
                    },
                ),
                match features {
                    Some(f) => f@,
                    None => Seq::empty(),
                },
            ),
    {
        let mut i: usize = 0;
        while i < self.known.len()
            invariant
                self.wf(),
                0 <= i <= self.known@.len(),
                forall|j: int| 0 <= j < i ==> self.known@[j].name@ != pattern_name@,
            decreases self.known@.len() - i,
        {
            if str_eq(self.known[i].name.as_str(), pattern_name) {
                proof {
                    assert forall|j: int|
                        0 <= j < self.known@.len() && self.known@[j].name@
                            == pattern_name@ implies j == i as int by {
                        if j < i as int {
                            assert(self.known@[j].name@ != pattern_name@);
                        } else if j > i as int {
                            assert(self.wf());
                            assert((i as int) < j && j < self.known@.len());
                            assert(self.known@[i as int].name@ != self.known@[j].name@);
                        }
                    }
                }
                return Ok(self.known[i].duplicate());
            }
            i = i + 1;
        }
        // Novel label: score the features and derive the metadata.
        let feat_vec: Vec<i64> = match features {
            Some(f) => clone_features(f),
            None => Vec::new(),
        };
        let score: i64 = if feat_vec.len() == 0 {
            let empty: Vec<i64> = Vec::new();
            default_model_stub(&empty)
        } else {
            match self.ml_client.infer(&feat_vec) {
                Ok(s) => s,
                Err(e) => {
                    return Err(e);
                },
            }
        };
        let strength: i64 = if score < 0 {
            -score
        } else {
            score
        };
        let confidence_raw: u64 = ((strength as u64) * 9) / 10;
        let confidence: i64 = if confidence_raw > SCALE as u64 {
            SCALE
        } else {
            confidence_raw as i64
        };
        let action: String = if score > SCALE / 5 {
            String::from_str("buy")
        } else if score < -(SCALE / 5) {
            String::from_str("sell")
        } else {
            String::from_str("hold")
        };
        let mut tags: Vec<String> = Vec::new();
        if score > 0 {
            tags.push(String::from_str("bullish"));
        } else {
            tags.push(String::from_str("bearish"));
        }
        let description = String::from_str(
            "Synthesized pattern inferred by ML with score ",
        ).concat(fx3_text_of(score).as_str());
        proof {
            assert(feat_vec@ == match features {
                Some(f) => f@,
                None => Seq::<i64>::empty(),
            });
        }
        Ok(
            PatternMeta {
                name: String::from_str(pattern_name),
                description,
                tags,
                strength,
                polarity: score,
                action,
                confidence,
                features: feat_vec,
            },
        )
    }
}

/// Law: resolving the same curated label twice yields value-equal
/// metadata both times, whatever features accompany each call.
pub proof fn lemma_curated_resolution_idempotent(
    lib: PatternLibrary,
    name: Seq<char>,
    r1: PatternMeta,
    r2: PatternMeta,
)
    requires
        lib.wf(),
        label_known(lib.known@, name),
        forall|i: int|
            0 <= i < lib.known@.len() && lib.known@[i].name@ == name ==> meta_like(
                r1,
                lib.known@[i],
            ),
        forall|i: int|
            0 <= i < lib.known@.len() && lib.known@[i].name@ == name ==> meta_like(
                r2,
                lib.known@[i],
            ),
    ensures
        meta_like(r1, r2),
{
    let i = choose|i: int| 0 <= i < lib.known@.len() && lib.known@[i].name@ == name;
    assert(meta_like(r1, lib.known@[i]));
    assert(meta_like(r2, lib.known@[i]));
}

} // verus!
