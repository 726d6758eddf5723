use vstd::prelude::*;

verus! {

/// The relation of a feed link to its document.
#[derive(Clone, Copy, Debug, PartialEq, Eq, Structural)]
pub enum Rel {
    RelSelf,
    Start,
    Subsection,
    SortNew,
    Image,
    Thumbnail,
    Acquisition,
    Stream,
}

pub open spec fn rel_text(x: Rel) -> Seq<char> {
    match x {
        Rel::RelSelf => "self"@,
        Rel::Start => "start"@,
        Rel::Subsection => "subsection"@,
        Rel::SortNew => "http://opds-spec.org/sort/new"@,
        Rel::Image => "http://opds-spec.org/image"@,
        Rel::Thumbnail => "http://opds-spec.org/image/thumbnail"@,
        Rel::Acquisition => "http://opds-spec.org/acquisition"@,
        Rel::Stream => "http://vaemendis.net/opds-pse/stream"@,
    }
}

impl Rel {
    pub fn as_str(&self) -> (r: &'static str)
        ensures
            r@ == rel_text(*self),
    {
        match self {
            Rel::RelSelf => "self",
            Rel::Start => "start",
            Rel::Subsection => "subsection",
            Rel::SortNew => "http://opds-spec.org/sort/new",
            Rel::Image => "http://opds-spec.org/image",
            Rel::Thumbnail => "http://opds-spec.org/image/thumbnail",
            Rel::Acquisition => "http://opds-spec.org/acquisition",
            Rel::Stream => "http://vaemendis.net/opds-pse/stream",
        }
    }
}

/// The media type of a feed link's target.
#[derive(Clone, Copy, Debug, PartialEq, Eq, Structural)]
pub enum LinkType {
    Jpeg,
    Acquisition,
    Navigation,
    OctetStream,
}

pub open spec fn link_type_text(x: LinkType) -> Seq<char> {
    match x {
        LinkType::Jpeg => "image/jpeg"@,
        LinkType::Acquisition => "application/atom+xml; profile=opds-catalog; kind=acquisition"@,
        LinkType::Navigation => "application/atom+xml; profile=opds-catalog; kind=navigation"@,
        LinkType::OctetStream => "application/octet-stream"@,
    }
}

impl LinkType {
    pub fn as_str(&self) -> (r: &'static str)
        ensures
            r@ == link_type_text(*self),
    {
        match self {
            LinkType::Jpeg => "image/jpeg",
            LinkType::Acquisition => "application/atom+xml; profile=opds-catalog; kind=acquisition",
            LinkType::Navigation => "application/atom+xml; profile=opds-catalog; kind=navigation",
            LinkType::OctetStream => "application/octet-stream",
        }
    }
}

} // verus!
