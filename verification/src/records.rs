//! The externally supplied records that describe a parsed discourse.
//!
//! The record store itself is an external collaborator; these types hold
//! what the encoder reads from it, as plain values.  String-keyed tag
//! tables of the store are carried here as closed enumerations with
//! explicit ordinals, and a verb mood is carried as an interned code
//! (`MOOD_INDICATIVE` stands for the indicative mood).

use vstd::prelude::*;

verus! {

/// Tense codes: 1 = past, 2 = present, 3 = future.
pub const TENSE_PAST: i32 = 1;

pub const TENSE_PRESENT: i32 = 2;

pub const TENSE_FUTURE: i32 = 3;

/// The interned mood code of the indicative mood.  Every other code
/// names a non-indicative mood (subjunctive, imperative, and so on).
pub const MOOD_INDICATIVE: u32 = 0;

/// Section type codes within a triplet.
pub const SECTION_SUBJECT: i32 = 1;

pub const SECTION_PREDICATE: i32 = 2;

pub const SECTION_OBJECT: i32 = 3;

/// Universal dependency relation tags that the encoder distinguishes.
#[derive(Debug, Clone, Copy, PartialEq, Eq, Structural)]
pub enum UdTag {
    NSubj,
    Obj,
    IObj,
    CSubj,
    CComp,
    XComp,
    NMod,
    Appos,
    NumMod,
    AMod,
    Acl,
    Mood,
    Case,
    Other,
}

/// Universal feature tags that the encoder distinguishes.
#[derive(Debug, Clone, Copy, PartialEq, Eq, Structural)]
pub enum FeatureTag {
    Person,
    Poss,
    PronType,
    Reflex,
    Animacy,
    Mood,
    Case,
    Other,
}

/// Animacy classes, ordered from most to least animate.
#[derive(Debug, Clone, Copy, PartialEq, Eq, Structural)]
pub enum AnimacyClass {
    Human,
    Animate,
    NonHuman,
    Inanimate,
}

/// A universal feature value, reduced to the classes the encoder reads.
#[derive(Debug, Clone, Copy, PartialEq, Eq, Structural)]
pub enum FeatureValue {
    /// A grammatical person ordinal, first through fifth.
    Person(u8),
    /// The personal-pronoun value of the pronoun-type feature.
    PersonalPronoun,
    /// An animacy class.
    Animacy(AnimacyClass),
    /// A geographic location case marker.
    CaseGeographic,
    /// A temporal location case marker.
    CaseTemporal,
    /// A terminative temporal location case marker.
    CaseTerminative,
    /// An interned verb mood code.
    Mood(u32),
    /// Any other value.
    Other,
}

/// Structure that acts as a node for all words in a sentence.
#[derive(Debug, Clone, Copy, PartialEq, Eq, Structural)]
pub struct InputSentence {
    pub sentence_id: i32,
    pub discourse_id: i32,
    /// Denotes a question (or not).
    pub is_question: bool,
}

/// Holds data for one word of a sentence.
#[derive(Debug, Clone)]
pub struct InputWord {
    pub word_id: i32,
    pub sentence_id: i32,
    /// 0 when the word is not on the meaning grid.
    pub synset_id: i32,
    pub index_of_word: i32,
    /// Lemma of the word.
    pub lexeme: String,
    /// Name of a named instance, empty otherwise.
    pub instance_name: String,
    /// Unique in-discourse reference of a coreference instance;
    /// 0 denotes a word that is not a coreference.
    pub instance_index: i32,
    /// Part of speech.
    pub pos: String,
    /// Meaning-grid position, scaled integer coordinates.
    pub x: i64,
    pub y: i64,
    /// Indicates a transition word.
    pub is_transition: bool,
    /// Greater than -1 only for a word not yet on the meaning grid.
    pub new_word_id: i32,
}

/// One universal feature of a word.
#[derive(Debug, Clone, Copy, PartialEq, Eq, Structural)]
pub struct InputWordFeature {
    pub word_id: i32,
    pub ud_relation: UdTag,
    pub ud_feature: FeatureTag,
    pub ud_feature_value: FeatureValue,
}

/// A directed dependency edge between two words.
#[derive(Debug, Clone, Copy, PartialEq, Eq, Structural)]
pub struct InputWordRelation {
    pub word_id: i32,
    pub word_id_modified: i32,
    pub ud_relation: UdTag,
}

/// One word's membership in a section of a triplet.
#[derive(Debug, Clone, Copy, PartialEq, Eq, Structural)]
pub struct InputSection {
    pub section_id: i32,
    pub triplet_id: i32,
    pub word_id: i32,
    /// 1 = subject, 2 = predicate, 3 = object.
    pub section_type: i32,
}

/// Data for a triplet.
#[derive(Debug, Clone, Copy, PartialEq, Eq, Structural)]
pub struct InputTriplet {
    pub triplet_id: i32,
    pub sentence_id: i32,
    /// 1 = past, 2 = present, 3 = future.
    pub tense: i32,
    /// Redundant; virtuality is classified from mood features.
    pub is_virtual: bool,
    /// Indicates that the triplet is part of a passive clause.
    pub is_passive: bool,
}

/// A universal feature exempt from virtuality checks in one discourse.
#[derive(Debug, Clone, Copy, PartialEq, Eq, Structural)]
pub struct InputExemptFeature {
    pub discourse_id: i32,
    pub ud_feature: FeatureTag,
    pub ud_feature_value: FeatureValue,
}

/// Describes a discourse.
#[derive(Debug, Clone)]
pub struct InputDiscourse {
    pub discourse_id: i32,
    /// Hypernym of the discourse on the meaning grid.
    pub hypernym_synset_id: i32,
    pub document_hash: String,
    pub author_public_hash: String,
    pub author_title: String,
    pub author_first_name: String,
    pub author_middle_name: String,
    pub author_surname: String,
    pub author_zone: String,
    /// Seconds since the UNIX epoch.
    pub date_unix_epoch: i32,
    /// Meaning-grid position of the hypernym, scaled integer coordinates.
    pub x: i64,
    pub y: i64,
}

/// A word of a discourse title.
#[derive(Debug, Clone, Copy, PartialEq, Eq, Structural)]
pub struct InputDiscourseTitle {
    pub discourse_id: i32,
    pub word_id: i32,
}

/// A word that does not yet exist on the meaning grid, together with
/// the hypernym under which its definition is read.
#[derive(Debug, Clone)]
pub struct InputNewWordDef {
    pub new_word_id: i32,
    pub hypernym_synset_id: i32,
    pub discourse_id: i32,
    pub lexeme: String,
    pub x: i64,
    pub y: i64,
}

/// A meaning-grid entry: a sense and its position.
#[derive(Debug, Clone, Copy, PartialEq, Eq, Structural)]
pub struct MeaningGridItem {
    pub x: i64,
    pub y: i64,
    /// 0 when the sense is not on the grid.
    pub synset_id: i32,
}

/// A universal dependency tag and its rank.
#[derive(Debug, Clone)]
pub struct UniversalDependencyTags {
    pub tag: String,
    pub rank: i32,
}

} // verus!
