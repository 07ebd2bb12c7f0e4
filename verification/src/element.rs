//! The reconstructed, absolute-valued domain entities.
//!
//! Coordinates are carried in integer nanodegrees: a point's position in
//! degrees is its nanodegree value times `1e-9`.  Keeping the values
//! integral keeps every contract exact; a presentation layer may scale
//! them to floating point.

use vstd::prelude::*;

verus! {

/// Ordered key/value tag pairs of an entity.
pub type Tags = Vec<(String, String)>;

/// A reconstructed entity: a point, a polyline, or a relation.
#[derive(Debug, Clone, PartialEq)]
pub enum Element {
    Node(Node),
    Way(Way),
    Relation(Relation),
}

/// Per-entity metadata, fully absolute.
#[derive(Debug, Clone, PartialEq)]
pub struct Info {
    pub version: i32,
    pub timestamp: Option<i64>,
    pub changeset: Option<i64>,
    pub uid: Option<i32>,
    pub user: Option<String>,
    pub visible: Option<bool>,
}

/// A point entity; `lon` and `lat` are nanodegrees.
#[derive(Debug, Clone, PartialEq)]
pub struct Node {
    pub id: i64,
    pub tags: Tags,
    pub info: Option<Info>,
    pub lon: i64,
    pub lat: i64,
}

/// A polyline entity; `refs` are the ids of the points it passes through.
#[derive(Debug, Clone, PartialEq)]
pub struct Way {
    pub id: i64,
    pub tags: Tags,
    pub info: Option<Info>,
    pub refs: Vec<i64>,
}

/// A relation entity: an ordered, typed, roled collection of references.
#[derive(Debug, Clone, PartialEq)]
pub struct Relation {
    pub id: i64,
    pub tags: Tags,
    pub info: Option<Info>,
    pub members: Vec<Member>,
}

/// One reference held by a relation.
#[derive(Debug, Clone, PartialEq)]
pub struct Member {
    pub id: i64,
    pub role: String,
    pub member_type: MemberType,
}

/// Which of the three entity kinds a value or a reference is.
#[derive(Debug, Clone, Copy, PartialEq, Eq, Structural)]
pub enum MemberType {
    Node,
    Way,
    Relation,
}

/// Mathematical image of a tag list.
pub type TagsV = Seq<(Seq<char>, Seq<char>)>;

/// The view of a tag list: each string by its characters.
pub open spec fn view_tags(tags: Tags) -> TagsV {
    tags@.map_values(|t: (String, String)| (t.0@, t.1@))
}

/// Mathematical image of an [`Info`].
pub ghost struct InfoV {
    pub version: i32,
    pub timestamp: Option<i64>,
    pub changeset: Option<i64>,
    pub uid: Option<i32>,
    pub user: Option<Seq<char>>,
    pub visible: Option<bool>,
}

impl View for Info {
    type V = InfoV;

    open spec fn view(&self) -> InfoV {
        InfoV {
            version: self.version,
            timestamp: self.timestamp,
            changeset: self.changeset,
            uid: self.uid,
            user: match self.user {
                Some(u) => Some(u@),
                None => None,
            },
            visible: self.visible,
        }
    }
}

/// Mathematical image of a [`Node`].
pub ghost struct NodeV {
    pub id: i64,
    pub tags: TagsV,
    pub info: Option<InfoV>,
    pub lon: i64,
    pub lat: i64,
}

impl View for Node {
    type V = NodeV;

    open spec fn view(&self) -> NodeV {
        NodeV {
            id: self.id,
            tags: view_tags(self.tags),
            info: match self.info {
                Some(i) => Some(i@),
                None => None,
            },
            lon: self.lon,
            lat: self.lat,
        }
    }
}

/// Mathematical image of a [`Way`].
pub ghost struct WayV {
    pub id: i64,
    pub tags: TagsV,
    pub info: Option<InfoV>,
    pub refs: Seq<i64>,
}

impl View for Way {
    type V = WayV;

    open spec fn view(&self) -> WayV {
        WayV {
            id: self.id,
            tags: view_tags(self.tags),
            info: match self.info {
                Some(i) => Some(i@),
                None => None,
            },
            refs: self.refs@,
        }
    }
}

/// Mathematical image of a [`Member`].
pub ghost struct MemberV {
    pub id: i64,
    pub role: Seq<char>,
    pub member_type: MemberType,
}

impl View for Member {
    type V = MemberV;

    open spec fn view(&self) -> MemberV {
        MemberV { id: self.id, role: self.role@, member_type: self.member_type }
    }
}

/// Mathematical image of a [`Relation`].
pub ghost struct RelationV {
    pub id: i64,
    pub tags: TagsV,
    pub info: Option<InfoV>,
    pub members: Seq<MemberV>,
}

impl View for Relation {
    type V = RelationV;

    open spec fn view(&self) -> RelationV {
        RelationV {
            id: self.id,
            tags: view_tags(self.tags),
            info: match self.info {
                Some(i) => Some(i@),
                None => None,
            },
            members: self.members@.map_values(|m: Member| m@),
        }
    }
}

/// Mathematical image of an [`Element`].
pub ghost enum ElementV {
    Node(NodeV),
    Way(WayV),
    Relation(RelationV),
}

impl View for Element {
    type V = ElementV;

    open spec fn view(&self) -> ElementV {
        match self {
            Element::Node(n) => ElementV::Node(n@),
            Element::Way(w) => ElementV::Way(w@),
            Element::Relation(r) => ElementV::Relation(r@),
        }
    }
}

/// The identifier of an entity, whichever kind it is.
pub open spec fn spec_element_id(e: ElementV) -> i64 {
    match e {
        ElementV::Node(n) => n.id,
        ElementV::Way(w) => w.id,
        ElementV::Relation(r) => r.id,
    }
}

/// The kind of an entity.
pub open spec fn spec_element_kind(e: ElementV) -> MemberType {
    match e {
        ElementV::Node(_) => MemberType::Node,
        ElementV::Way(_) => MemberType::Way,
        ElementV::Relation(_) => MemberType::Relation,
    }
}

impl Element {
    /// The identifier of the entity.
    pub fn id(&self) -> (r: i64)
        ensures
            r == spec_element_id(self@),
    {
        match self {
            Element::Node(n) => n.id,
            Element::Way(w) => w.id,
            Element::Relation(r) => r.id,
        }
    }

    /// The kind of the entity.
    pub fn kind(&self) -> (r: MemberType)
        ensures
            r == spec_element_kind(self@),
    {
        match self {
            Element::Node(_) => MemberType::Node,
            Element::Way(_) => MemberType::Way,
            Element::Relation(_) => MemberType::Relation,
        }
    }
}

} // verus!
