//! The data model: the closed classifications of a decision (level, kind,
//! weight, status), the link kinds, and the two record types.  Text parsing
//! and formatting of the closed enumerations lives here, so the accepted
//! value set of each is declared exactly once and shared by storage, the
//! interchange codec and callers.

use vstd::prelude::*;

use crate::error::DictumError;

verus! {

/// Granularity of a decision's scope.
#[derive(Clone, Copy, Debug, PartialEq, Eq, Structural)]
pub enum Level {
    Strategic,
    Tactical,
    Operational,
}

/// Epistemic category of a decision.
#[derive(Clone, Copy, Debug, PartialEq, Eq, Structural)]
pub enum Kind {
    Principle,
    Constraint,
    Assumption,
    Choice,
    Rule,
    Goal,
}

/// Normative force of a decision.
#[derive(Clone, Copy, Debug, PartialEq, Eq, Structural)]
pub enum Weight {
    Must,
    Should,
    May,
}

/// Lifecycle state of a decision.
#[derive(Clone, Copy, Debug, PartialEq, Eq, Structural)]
pub enum Status {
    Active,
    Superseded,
    Deprecated,
    Draft,
}

/// The relationship a link asserts, from its source to its target.
#[derive(Clone, Copy, Debug, PartialEq, Eq, Structural)]
pub enum LinkKind {
    Refines,
    Supports,
    Supersedes,
    Conflicts,
    Requires,
    Entails,
    Excludes,
}

impl Level {
    /// The canonical text of this level.
    pub open spec fn spec_text(self) -> Seq<char> {
        match self {
            Level::Strategic => "strategic"@,
            Level::Tactical => "tactical"@,
            Level::Operational => "operational"@,
        }
    }

    /// Renders the level as its canonical text.
    pub fn as_text(&self) -> (r: String)
        ensures
            r@ == self.spec_text(),
    {
        match self {
            Level::Strategic => "strategic".to_owned(),
            Level::Tactical => "tactical".to_owned(),
            Level::Operational => "operational".to_owned(),
        }
    }

    /// The value whose canonical text is `s`, if any.
    pub open spec fn level_of_text(s: Seq<char>) -> Option<Level> {
        if s == "strategic"@ {
            Some(Level::Strategic)
        } else if s == "tactical"@ {
            Some(Level::Tactical)
        } else if s == "operational"@ {
            Some(Level::Operational)
        } else {
            None
        }
    }

    /// The value whose canonical text this is, exactly; the interchange
    /// decoder's strict matcher.
    pub fn from_text(s: &str) -> (r: Option<Level>)
        ensures
            r == Level::level_of_text(s@),
    {
        if crate::strutil::str_eq(s, "strategic") {
            Some(Level::Strategic)
        } else if crate::strutil::str_eq(s, "tactical") {
            Some(Level::Tactical)
        } else if crate::strutil::str_eq(s, "operational") {
            Some(Level::Operational)
        } else {
            None
        }
    }

    /// Parses a level name, folding ASCII case away first: any casing of
    /// the canonical names is accepted.
    pub fn parse(s: &str) -> (r: Result<Level, DictumError>)
        ensures
            match r {
                Ok(v) => Level::level_of_text(crate::strutil::fold_chars(s@)) == Some(v),
                Err(e) => Level::level_of_text(crate::strutil::fold_chars(s@)) is None && (e
                    matches DictumError::InvalidLevel(t) && t@ == s@),
            },
    {
        if crate::strutil::str_eq_fold(s, "strategic") {
            Ok(Level::Strategic)
        } else if crate::strutil::str_eq_fold(s, "tactical") {
            Ok(Level::Tactical)
        } else if crate::strutil::str_eq_fold(s, "operational") {
            Ok(Level::Operational)
        } else {
            Err(DictumError::InvalidLevel(s.to_owned()))
        }
    }
}

impl Kind {
    /// The canonical text of this kind.
    pub open spec fn spec_text(self) -> Seq<char> {
        match self {
            Kind::Principle => "principle"@,
            Kind::Constraint => "constraint"@,
            Kind::Assumption => "assumption"@,
            Kind::Choice => "choice"@,
            Kind::Rule => "rule"@,
            Kind::Goal => "goal"@,
        }
    }

    /// Renders the kind as its canonical text.
    pub fn as_text(&self) -> (r: String)
        ensures
            r@ == self.spec_text(),
    {
        match self {
            Kind::Principle => "principle".to_owned(),
            Kind::Constraint => "constraint".to_owned(),
            Kind::Assumption => "assumption".to_owned(),
            Kind::Choice => "choice".to_owned(),
            Kind::Rule => "rule".to_owned(),
            Kind::Goal => "goal".to_owned(),
        }
    }

    /// The value whose canonical text is `s`, if any.
    pub open spec fn kind_of_text(s: Seq<char>) -> Option<Kind> {
        if s == "principle"@ {
            Some(Kind::Principle)
        } else if s == "constraint"@ {
            Some(Kind::Constraint)
        } else if s == "assumption"@ {
            Some(Kind::Assumption)
        } else if s == "choice"@ {
            Some(Kind::Choice)
        } else if s == "rule"@ {
            Some(Kind::Rule)
        } else if s == "goal"@ {
            Some(Kind::Goal)
        } else {
            None
        }
    }

    /// The value whose canonical text this is, exactly; the interchange
    /// decoder's strict matcher.
    pub fn from_text(s: &str) -> (r: Option<Kind>)
        ensures
            r == Kind::kind_of_text(s@),
    {
        if crate::strutil::str_eq(s, "principle") {
            Some(Kind::Principle)
        } else if crate::strutil::str_eq(s, "constraint") {
            Some(Kind::Constraint)
        } else if crate::strutil::str_eq(s, "assumption") {
            Some(Kind::Assumption)
        } else if crate::strutil::str_eq(s, "choice") {
            Some(Kind::Choice)
        } else if crate::strutil::str_eq(s, "rule") {
            Some(Kind::Rule)
        } else if crate::strutil::str_eq(s, "goal") {
            Some(Kind::Goal)
        } else {
            None
        }
    }

    /// Parses a kind name, folding ASCII case away first: any casing of
    /// the canonical names is accepted.
    pub fn parse(s: &str) -> (r: Result<Kind, DictumError>)
        ensures
            match r {
                Ok(v) => Kind::kind_of_text(crate::strutil::fold_chars(s@)) == Some(v),
                Err(e) => Kind::kind_of_text(crate::strutil::fold_chars(s@)) is None && (e
                    matches DictumError::InvalidKind(t) && t@ == s@),
            },
    {
        if crate::strutil::str_eq_fold(s, "principle") {
            Ok(Kind::Principle)
        } else if crate::strutil::str_eq_fold(s, "constraint") {
            Ok(Kind::Constraint)
        } else if crate::strutil::str_eq_fold(s, "assumption") {
            Ok(Kind::Assumption)
        } else if crate::strutil::str_eq_fold(s, "choice") {
            Ok(Kind::Choice)
        } else if crate::strutil::str_eq_fold(s, "rule") {
            Ok(Kind::Rule)
        } else if crate::strutil::str_eq_fold(s, "goal") {
            Ok(Kind::Goal)
        } else {
            Err(DictumError::InvalidKind(s.to_owned()))
        }
    }
}

impl Weight {
    /// The canonical text of this weight.
    pub open spec fn spec_text(self) -> Seq<char> {
        match self {
            Weight::Must => "must"@,
            Weight::Should => "should"@,
            Weight::May => "may"@,
        }
    }

    /// Renders the weight as its canonical text.
    pub fn as_text(&self) -> (r: String)
        ensures
            r@ == self.spec_text(),
    {
        match self {
            Weight::Must => "must".to_owned(),
            Weight::Should => "should".to_owned(),
            Weight::May => "may".to_owned(),
        }
    }

    /// The value whose canonical text is `s`, if any.
    pub open spec fn weight_of_text(s: Seq<char>) -> Option<Weight> {
        if s == "must"@ {
            Some(Weight::Must)
        } else if s == "should"@ {
            Some(Weight::Should)
        } else if s == "may"@ {
            Some(Weight::May)
        } else {
            None
        }
    }

    /// The value whose canonical text this is, exactly; the interchange
    /// decoder's strict matcher.
    pub fn from_text(s: &str) -> (r: Option<Weight>)
        ensures
            r == Weight::weight_of_text(s@),
    {
        if crate::strutil::str_eq(s, "must") {
            Some(Weight::Must)
        } else if crate::strutil::str_eq(s, "should") {
            Some(Weight::Should)
        } else if crate::strutil::str_eq(s, "may") {
            Some(Weight::May)
        } else {
            None
        }
    }

    /// Parses a weight name, folding ASCII case away first: any casing of
    /// the canonical names is accepted.
    pub fn parse(s: &str) -> (r: Result<Weight, DictumError>)
        ensures
            match r {
                Ok(v) => Weight::weight_of_text(crate::strutil::fold_chars(s@)) == Some(v),
                Err(e) => Weight::weight_of_text(crate::strutil::fold_chars(s@)) is None && (e
                    matches DictumError::InvalidWeight(t) && t@ == s@),
            },
    {
        if crate::strutil::str_eq_fold(s, "must") {
            Ok(Weight::Must)
        } else if crate::strutil::str_eq_fold(s, "should") {
            Ok(Weight::Should)
        } else if crate::strutil::str_eq_fold(s, "may") {
            Ok(Weight::May)
        } else {
            Err(DictumError::InvalidWeight(s.to_owned()))
        }
    }
}

impl Status {
    /// The canonical text of this status.
    pub open spec fn spec_text(self) -> Seq<char> {
        match self {
            Status::Active => "active"@,
            Status::Superseded => "superseded"@,
            Status::Deprecated => "deprecated"@,
            Status::Draft => "draft"@,
        }
    }

    /// Renders the status as its canonical text.
    pub fn as_text(&self) -> (r: String)
        ensures
            r@ == self.spec_text(),
    {
        match self {
            Status::Active => "active".to_owned(),
            Status::Superseded => "superseded".to_owned(),
            Status::Deprecated => "deprecated".to_owned(),
            Status::Draft => "draft".to_owned(),
        }
    }

    /// The value whose canonical text is `s`, if any.
    pub open spec fn status_of_text(s: Seq<char>) -> Option<Status> {
        if s == "active"@ {
            Some(Status::Active)
        } else if s == "superseded"@ {
            Some(Status::Superseded)
        } else if s == "deprecated"@ {
            Some(Status::Deprecated)
        } else if s == "draft"@ {
            Some(Status::Draft)
        } else {
            None
        }
    }

    /// The value whose canonical text this is, exactly; the interchange
    /// decoder's strict matcher.
    pub fn from_text(s: &str) -> (r: Option<Status>)
        ensures
            r == Status::status_of_text(s@),
    {
        if crate::strutil::str_eq(s, "active") {
            Some(Status::Active)
        } else if crate::strutil::str_eq(s, "superseded") {
            Some(Status::Superseded)
        } else if crate::strutil::str_eq(s, "deprecated") {
            Some(Status::Deprecated)
        } else if crate::strutil::str_eq(s, "draft") {
            Some(Status::Draft)
        } else {
            None
        }
    }

    /// Parses a status name, folding ASCII case away first: any casing of
    /// the canonical names is accepted.
    pub fn parse(s: &str) -> (r: Result<Status, DictumError>)
        ensures
            match r {
                Ok(v) => Status::status_of_text(crate::strutil::fold_chars(s@)) == Some(v),
                Err(e) => Status::status_of_text(crate::strutil::fold_chars(s@)) is None && (e
                    matches DictumError::InvalidStatus(t) && t@ == s@),
            },
    {
        if crate::strutil::str_eq_fold(s, "active") {
            Ok(Status::Active)
        } else if crate::strutil::str_eq_fold(s, "superseded") {
            Ok(Status::Superseded)
        } else if crate::strutil::str_eq_fold(s, "deprecated") {
            Ok(Status::Deprecated)
        } else if crate::strutil::str_eq_fold(s, "draft") {
            Ok(Status::Draft)
        } else {
            Err(DictumError::InvalidStatus(s.to_owned()))
        }
    }
}

impl LinkKind {
    /// The canonical text of this link kind.
    pub open spec fn spec_text(self) -> Seq<char> {
        match self {
            LinkKind::Refines => "refines"@,
            LinkKind::Supports => "supports"@,
            LinkKind::Supersedes => "supersedes"@,
            LinkKind::Conflicts => "conflicts"@,
            LinkKind::Requires => "requires"@,
            LinkKind::Entails => "entails"@,
            LinkKind::Excludes => "excludes"@,
        }
    }

    /// Renders the link kind as its canonical text.
    pub fn as_text(&self) -> (r: String)
        ensures
            r@ == self.spec_text(),
    {
        match self {
            LinkKind::Refines => "refines".to_owned(),
            LinkKind::Supports => "supports".to_owned(),
            LinkKind::Supersedes => "supersedes".to_owned(),
            LinkKind::Conflicts => "conflicts".to_owned(),
            LinkKind::Requires => "requires".to_owned(),
            LinkKind::Entails => "entails".to_owned(),
            LinkKind::Excludes => "excludes".to_owned(),
        }
    }

    /// The value whose canonical text is `s`, if any.
    pub open spec fn link_kind_of_text(s: Seq<char>) -> Option<LinkKind> {
        if s == "refines"@ {
            Some(LinkKind::Refines)
        } else if s == "supports"@ {
            Some(LinkKind::Supports)
        } else if s == "supersedes"@ {
            Some(LinkKind::Supersedes)
        } else if s == "conflicts"@ {
            Some(LinkKind::Conflicts)
        } else if s == "requires"@ {
            Some(LinkKind::Requires)
        } else if s == "entails"@ {
            Some(LinkKind::Entails)
        } else if s == "excludes"@ {
            Some(LinkKind::Excludes)
        } else {
            None
        }
    }

    /// The value whose canonical text this is, exactly; the interchange
    /// decoder's strict matcher.
    pub fn from_text(s: &str) -> (r: Option<LinkKind>)
        ensures
            r == LinkKind::link_kind_of_text(s@),
    {
        if crate::strutil::str_eq(s, "refines") {
            Some(LinkKind::Refines)
        } else if crate::strutil::str_eq(s, "supports") {
            Some(LinkKind::Supports)
        } else if crate::strutil::str_eq(s, "supersedes") {
            Some(LinkKind::Supersedes)
        } else if crate::strutil::str_eq(s, "conflicts") {
            Some(LinkKind::Conflicts)
        } else if crate::strutil::str_eq(s, "requires") {
            Some(LinkKind::Requires)
        } else if crate::strutil::str_eq(s, "entails") {
            Some(LinkKind::Entails)
        } else if crate::strutil::str_eq(s, "excludes") {
            Some(LinkKind::Excludes)
        } else {
            None
        }
    }

    /// Parses a link-kind name, folding ASCII case away first: any casing of
    /// the canonical names is accepted.
    pub fn parse(s: &str) -> (r: Result<LinkKind, DictumError>)
        ensures
            match r {
                Ok(v) => LinkKind::link_kind_of_text(crate::strutil::fold_chars(s@)) == Some(v),
                Err(e) => LinkKind::link_kind_of_text(crate::strutil::fold_chars(s@)) is None && (e
                    matches DictumError::InvalidLinkKind(t) && t@ == s@),
            },
    {
        if crate::strutil::str_eq_fold(s, "refines") {
            Ok(LinkKind::Refines)
        } else if crate::strutil::str_eq_fold(s, "supports") {
            Ok(LinkKind::Supports)
        } else if crate::strutil::str_eq_fold(s, "supersedes") {
            Ok(LinkKind::Supersedes)
        } else if crate::strutil::str_eq_fold(s, "conflicts") {
            Ok(LinkKind::Conflicts)
        } else if crate::strutil::str_eq_fold(s, "requires") {
            Ok(LinkKind::Requires)
        } else if crate::strutil::str_eq_fold(s, "entails") {
            Ok(LinkKind::Entails)
        } else if crate::strutil::str_eq_fold(s, "excludes") {
            Ok(LinkKind::Excludes)
        } else {
            Err(DictumError::InvalidLinkKind(s.to_owned()))
        }
    }
}


/// The canonical text of a level parses back to it.
pub proof fn lemma_level_text_inverse(l: Level)
    ensures
        Level::level_of_text(l.spec_text()) == Some(l),
{
    broadcast use vstd::string::group_string_axioms;

    reveal_strlit("strategic");
    reveal_strlit("tactical");
    reveal_strlit("operational");
    match l {
        Level::Strategic => {},
        Level::Tactical => {
            assert(("strategic"@).len() == 9);
            assert(("tactical"@).len() == 8);
        },
        Level::Operational => {
            assert(("operational"@).len() == 11);
            assert(("strategic"@).len() == 9);
            assert(("tactical"@).len() == 8);
        },
    }
}

/// The canonical text of a kind parses back to it.
pub proof fn lemma_kind_text_inverse(k: Kind)
    ensures
        Kind::kind_of_text(k.spec_text()) == Some(k),
{
    broadcast use vstd::string::group_string_axioms;

    reveal_strlit("principle");
    reveal_strlit("constraint");
    reveal_strlit("assumption");
    reveal_strlit("choice");
    reveal_strlit("rule");
    reveal_strlit("goal");
    match k {
        Kind::Principle => {},
        Kind::Constraint => {
            assert(("constraint"@).len() == 10);
            assert(("principle"@).len() == 9);
        },
        Kind::Assumption => {
            assert(("assumption"@)[0] == 'a');
            assert(("constraint"@)[0] == 'c');
            assert(("assumption"@).len() == 10);
            assert(("principle"@).len() == 9);
        },
        Kind::Choice => {
            assert(("assumption"@).len() == 10);
            assert(("choice"@).len() == 6);
            assert(("constraint"@).len() == 10);
            assert(("principle"@).len() == 9);
        },
        Kind::Rule => {
            assert(("assumption"@).len() == 10);
            assert(("choice"@).len() == 6);
            assert(("constraint"@).len() == 10);
            assert(("principle"@).len() == 9);
            assert(("rule"@).len() == 4);
        },
        Kind::Goal => {
            assert(("goal"@)[0] == 'g');
            assert(("rule"@)[0] == 'r');
            assert(("assumption"@).len() == 10);
            assert(("choice"@).len() == 6);
            assert(("constraint"@).len() == 10);
            assert(("goal"@).len() == 4);
            assert(("principle"@).len() == 9);
        },
    }
}

/// The canonical text of a weight parses back to it.
pub proof fn lemma_weight_text_inverse(w: Weight)
    ensures
        Weight::weight_of_text(w.spec_text()) == Some(w),
{
    broadcast use vstd::string::group_string_axioms;

    reveal_strlit("must");
    reveal_strlit("should");
    reveal_strlit("may");
    match w {
        Weight::Must => {},
        Weight::Should => {
            assert(("must"@).len() == 4);
            assert(("should"@).len() == 6);
        },
        Weight::May => {
            assert(("may"@).len() == 3);
            assert(("must"@).len() == 4);
            assert(("should"@).len() == 6);
        },
    }
}

/// The canonical text of a status parses back to it.
pub proof fn lemma_status_text_inverse(st: Status)
    ensures
        Status::status_of_text(st.spec_text()) == Some(st),
{
    broadcast use vstd::string::group_string_axioms;

    reveal_strlit("active");
    reveal_strlit("superseded");
    reveal_strlit("deprecated");
    reveal_strlit("draft");
    match st {
        Status::Active => {},
        Status::Superseded => {
            assert(("active"@).len() == 6);
            assert(("superseded"@).len() == 10);
        },
        Status::Deprecated => {
            assert(("deprecated"@)[0] == 'd');
            assert(("superseded"@)[0] == 's');
            assert(("active"@).len() == 6);
            assert(("deprecated"@).len() == 10);
        },
        Status::Draft => {
            assert(("active"@).len() == 6);
            assert(("deprecated"@).len() == 10);
            assert(("draft"@).len() == 5);
            assert(("superseded"@).len() == 10);
        },
    }
}

/// The canonical text of a link kind parses back to it.
pub proof fn lemma_link_kind_text_inverse(k: LinkKind)
    ensures
        LinkKind::link_kind_of_text(k.spec_text()) == Some(k),
{
    broadcast use vstd::string::group_string_axioms;

    reveal_strlit("refines");
    reveal_strlit("supports");
    reveal_strlit("supersedes");
    reveal_strlit("conflicts");
    reveal_strlit("requires");
    reveal_strlit("entails");
    reveal_strlit("excludes");
    match k {
        LinkKind::Refines => {},
        LinkKind::Supports => {
            assert(("refines"@).len() == 7);
            assert(("supports"@).len() == 8);
        },
        LinkKind::Supersedes => {
            assert(("refines"@).len() == 7);
            assert(("supersedes"@).len() == 10);
            assert(("supports"@).len() == 8);
        },
        LinkKind::Conflicts => {
            assert(("conflicts"@).len() == 9);
            assert(("refines"@).len() == 7);
            assert(("supersedes"@).len() == 10);
            assert(("supports"@).len() == 8);
        },
        LinkKind::Requires => {
            assert(("requires"@)[0] == 'r');
            assert(("supports"@)[0] == 's');
            assert(("conflicts"@).len() == 9);
            assert(("refines"@).len() == 7);
            assert(("requires"@).len() == 8);
            assert(("supersedes"@).len() == 10);
        },
        LinkKind::Entails => {
            assert(("entails"@)[0] == 'e');
            assert(("refines"@)[0] == 'r');
            assert(("conflicts"@).len() == 9);
            assert(("entails"@).len() == 7);
            assert(("requires"@).len() == 8);
            assert(("supersedes"@).len() == 10);
            assert(("supports"@).len() == 8);
        },
        LinkKind::Excludes => {
            assert(("excludes"@)[0] == 'e');
            assert(("requires"@)[0] == 'r');
            assert(("supports"@)[0] == 's');
            assert(("conflicts"@).len() == 9);
            assert(("entails"@).len() == 7);
            assert(("excludes"@).len() == 8);
            assert(("refines"@).len() == 7);
            assert(("supersedes"@).len() == 10);
        },
    }
}

/// The default kind a decision gets when none is given.
pub fn default_kind() -> (k: Kind)
    ensures
        k == Kind::Choice,
{
    Kind::Choice
}

/// The default weight a decision gets when none is given.
pub fn default_weight() -> (w: Weight)
    ensures
        w == Weight::Should,
{
    Weight::Should
}

/// A recorded decision: a timestamped statement with classification,
/// lifecycle state, provenance and labels.
#[derive(Debug)]
pub struct Decision {
    pub id: String,
    pub title: String,
    pub body: Option<String>,
    pub level: Level,
    pub status: Status,
    pub superseded_by: Option<String>,
    pub author: String,
    pub created_at: String,
    pub updated_at: String,
    pub labels: Vec<String>,
    pub kind: Kind,
    pub weight: Weight,
    pub rebuttal: Option<String>,
    pub scope: Option<String>,
}

/// A directed, typed edge from one decision to another.
#[derive(Debug)]
pub struct Link {
    pub source_id: String,
    pub target_id: String,
    pub kind: LinkKind,
    pub created_at: String,
    pub reason: Option<String>,
}

/// The mathematical content of a decision: every text field as its character
/// sequence.  Two decisions with equal views carry the same information.
pub ghost struct DecisionV {
    pub id: Seq<char>,
    pub title: Seq<char>,
    pub body: Option<Seq<char>>,
    pub level: Level,
    pub status: Status,
    pub superseded_by: Option<Seq<char>>,
    pub author: Seq<char>,
    pub created_at: Seq<char>,
    pub updated_at: Seq<char>,
    pub labels: Seq<Seq<char>>,
    pub kind: Kind,
    pub weight: Weight,
    pub rebuttal: Option<Seq<char>>,
    pub scope: Option<Seq<char>>,
}

/// The mathematical content of a link.
pub ghost struct LinkV {
    pub source_id: Seq<char>,
    pub target_id: Seq<char>,
    pub kind: LinkKind,
    pub created_at: Seq<char>,
    pub reason: Option<Seq<char>>,
}

impl View for Decision {
    type V = DecisionV;

    open spec fn view(&self) -> DecisionV {
        DecisionV {
            id: self.id@,
            title: self.title@,
            body: self.body.deep_view(),
            level: self.level,
            status: self.status,
            superseded_by: self.superseded_by.deep_view(),
            author: self.author@,
            created_at: self.created_at@,
            updated_at: self.updated_at@,
            labels: self.labels.deep_view(),
            kind: self.kind,
            weight: self.weight,
            rebuttal: self.rebuttal.deep_view(),
            scope: self.scope.deep_view(),
        }
    }
}

impl DeepView for Decision {
    type V = DecisionV;

    open spec fn deep_view(&self) -> DecisionV {
        self.view()
    }
}

impl View for Link {
    type V = LinkV;

    open spec fn view(&self) -> LinkV {
        LinkV {
            source_id: self.source_id@,
            target_id: self.target_id@,
            kind: self.kind,
            created_at: self.created_at@,
            reason: self.reason.deep_view(),
        }
    }
}

impl DeepView for Link {
    type V = LinkV;

    open spec fn deep_view(&self) -> LinkV {
        self.view()
    }
}

impl Clone for Decision {
    /// Clones the decision; the copy carries the same content.
    fn clone(&self) -> (r: Self)
        ensures
            r@ == self@,
    {
        Decision {
            id: self.id.clone(),
            title: self.title.clone(),
            body: crate::strutil::clone_opt_string(&self.body),
            level: self.level,
            status: self.status,
            superseded_by: crate::strutil::clone_opt_string(&self.superseded_by),
            author: self.author.clone(),
            created_at: self.created_at.clone(),
            updated_at: self.updated_at.clone(),
            labels: crate::strutil::clone_string_vec(&self.labels),
            kind: self.kind,
            weight: self.weight,
            rebuttal: crate::strutil::clone_opt_string(&self.rebuttal),
            scope: crate::strutil::clone_opt_string(&self.scope),
        }
    }
}

impl Clone for Link {
    /// Clones the link; the copy equals the original.
    fn clone(&self) -> (r: Self)
        ensures
            r == *self,
    {
        Link {
            source_id: self.source_id.clone(),
            target_id: self.target_id.clone(),
            kind: self.kind,
            created_at: self.created_at.clone(),
            reason: crate::strutil::clone_opt_string(&self.reason),
        }
    }
}

} // verus!
