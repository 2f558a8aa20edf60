//! The atom types of the LV2 atom specification, and the URIDs of their types.
pub mod bodies;
pub mod chunk;
pub mod object;
pub mod scalar;
pub mod sequence;
pub mod string;
pub mod tuple;
pub mod vector;

use vstd::prelude::*;

verus! {

/// The URID mapper of the `urid` crate, backed by a hash map.
#[verifier::external_type_specification]
#[verifier::external_body]
pub struct ExHashURIDMapper(urid::HashURIDMapper);

/// The URIs a [`urid::HashURIDMapper`] has mapped, each with its URID.
pub uninterp spec fn mapper_contents(map: urid::HashURIDMapper) -> Map<Seq<char>, u32>;

/// Whether the mapper maps the URI of each of the first fields to its URID in `urids`, which
/// is not 0.
pub open spec fn maps_prefix(mapped: Map<Seq<char>, u32>, urids: Seq<u32>) -> bool {
    forall|j: int|
        0 <= j < urids.len() ==> #[trigger] urids[j] != 0 && mapped.contains_key(atom_uri(j))
            && mapped[atom_uri(j)] == urids[j]
}

/// Whether `new` still maps every URI that `old` maps, to the same URID.
pub open spec fn keeps_mappings(old: Map<Seq<char>, u32>, new: Map<Seq<char>, u32>) -> bool {
    forall|k: Seq<char>| #[trigger] old.contains_key(k) ==> new.contains_key(k) && new[k] == old[k]
}

/// `urid::Map::map_str` on a [`urid::HashURIDMapper`]: maps a URI to its URID, assigning a
/// new one if the URI was not mapped before.
///
/// Claimed of it, as the crate's source shows: a returned URID is never 0 (the crate's `URID`
/// type is non-zero); a URI that was mapped before gets its URID back; the mapper then maps
/// the URI to the returned URID and keeps every other mapping; when the call fails (a URI that
/// is not ASCII or holds a zero byte, a poisoned lock, too many URIs), nothing changes. Which
/// URID a new URI gets, and whether the call fails, is not stated.
#[verifier::external_body]
fn map_str(map: &mut urid::HashURIDMapper, uri: &str) -> (r: Option<u32>)
    ensures
        match r {
            Some(u) => {
                &&& u != 0
                &&& mapper_contents(*old(map)).contains_key(uri@) ==> u == mapper_contents(
                    *old(map),
                )[uri@]
                &&& mapper_contents(*final(map)) == mapper_contents(*old(map)).insert(uri@, u)
            },
            None => mapper_contents(*final(map)) == mapper_contents(*old(map)),
        },
{
    match urid::Map::map_str(&*map, uri) {
        Some(urid) => Some(urid.get()),
        None => None,
    }
}

/// The URIDs of all standard atom types.
#[derive(Debug, Clone, Copy, PartialEq, Eq)]
pub struct AtomURIDCollection {
    pub blank: u32,
    pub double: u32,
    pub float: u32,
    pub int: u32,
    pub long: u32,
    pub urid: u32,
    pub bool: u32,
    pub vector: u32,
    pub chunk: u32,
    pub literal: u32,
    pub object: u32,
    pub property: u32,
    pub string: u32,
    pub tuple: u32,
    pub sequence: u32,
}

impl AtomURIDCollection {
    /// None of the URIDs is 0.
    pub open spec fn wf(&self) -> bool {
        &&& self.blank != 0
        &&& self.double != 0
        &&& self.float != 0
        &&& self.int != 0
        &&& self.long != 0
        &&& self.urid != 0
        &&& self.bool != 0
        &&& self.vector != 0
        &&& self.chunk != 0
        &&& self.literal != 0
        &&& self.object != 0
        &&& self.property != 0
        &&& self.string != 0
        &&& self.tuple != 0
        &&& self.sequence != 0
    }

    /// The collection whose fields, in their order, hold the given URIDs.
    pub open spec fn spec_from_urids(urids: Seq<u32>) -> Self
        recommends
            urids.len() == 15,
    {
        AtomURIDCollection {
        blank: urids[0],
        double: urids[1],
        float: urids[2],
        int: urids[3],
        long: urids[4],
        urid: urids[5],
        bool: urids[6],
        vector: urids[7],
        chunk: urids[8],
        literal: urids[9],
        object: urids[10],
        property: urids[11],
        string: urids[12],
        tuple: urids[13],
        sequence: urids[14],
        }
    }

    /// The collection whose fields, in their order, hold the given URIDs.
    pub fn from_urids(urids: &[u32]) -> (r: Self)
        requires
            urids@.len() == 15,
        ensures
            r == Self::spec_from_urids(urids@),
            r.blank == urids@[0],
            r.double == urids@[1],
            r.float == urids@[2],
            r.int == urids@[3],
            r.long == urids@[4],
            r.urid == urids@[5],
            r.bool == urids@[6],
            r.vector == urids@[7],
            r.chunk == urids@[8],
            r.literal == urids@[9],
            r.object == urids@[10],
            r.property == urids@[11],
            r.string == urids@[12],
            r.tuple == urids@[13],
            r.sequence == urids@[14],
    {
        AtomURIDCollection {
            blank: urids[0],
            double: urids[1],
            float: urids[2],
            int: urids[3],
            long: urids[4],
            urid: urids[5],
            bool: urids[6],
            vector: urids[7],
            chunk: urids[8],
            literal: urids[9],
            object: urids[10],
            property: urids[11],
            string: urids[12],
            tuple: urids[13],
            sequence: urids[14],
        }
    }

    /// Maps the URIs of all standard atom types, one after the other in the order of the
    /// fields ([`atom_uri`]), and stops at the first one the mapper fails to map.
    ///
    /// Returns the collection, whose every field holds the URID the mapper then maps its URI
    /// to, or `None` if a mapping failed, together with the record of the calls made to the
    /// mapper: each URI handed to it and what it returned.
    pub fn from_map(map: &mut urid::HashURIDMapper) -> (r: (
        Option<Self>,
        Ghost<Seq<(Seq<char>, Option<u32>)>>,
    ))
        ensures
            keeps_mappings(mapper_contents(*old(map)), mapper_contents(*final(map))),
            ({
                let calls = r.1@;
                let mapped = mapper_contents(*final(map));
                &&& 1 <= calls.len() <= 15
                &&& forall|j: int| 0 <= j < calls.len() ==> #[trigger] calls[j].0 == atom_uri(j)
                &&& forall|j: int| 0 <= j < calls.len() - 1 ==> #[trigger] calls[j].1 is Some
                &&& forall|j: int|
                    0 <= j < calls.len() ==> (#[trigger] calls[j].1 matches Some(u) ==> u != 0
                        && mapped.contains_key(atom_uri(j)) && mapped[atom_uri(j)] == u)
                &&& match r.0 {
                    Some(c) => {
                        &&& calls.len() == 15
                        &&& calls.last().1 is Some
                        &&& forall|j: int| 0 <= j < 15 ==> #[trigger] mapped.contains_key(atom_uri(j))
                        &&& c == Self::spec_from_urids(Seq::new(15, |j: int| mapped[atom_uri(j)]))
                        &&& c.wf()
                        &&& mapped.contains_key("http://lv2plug.in/ns/ext/atom#Blank"@)
                        &&& c.blank == mapped["http://lv2plug.in/ns/ext/atom#Blank"@]
                        &&& mapped.contains_key("http://lv2plug.in/ns/ext/atom#Double"@)
                        &&& c.double == mapped["http://lv2plug.in/ns/ext/atom#Double"@]
                        &&& mapped.contains_key("http://lv2plug.in/ns/ext/atom#Float"@)
                        &&& c.float == mapped["http://lv2plug.in/ns/ext/atom#Float"@]
                        &&& mapped.contains_key("http://lv2plug.in/ns/ext/atom#Int"@)
                        &&& c.int == mapped["http://lv2plug.in/ns/ext/atom#Int"@]
                        &&& mapped.contains_key("http://lv2plug.in/ns/ext/atom#Long"@)
                        &&& c.long == mapped["http://lv2plug.in/ns/ext/atom#Long"@]
                        &&& mapped.contains_key("http://lv2plug.in/ns/ext/atom#URID"@)
                        &&& c.urid == mapped["http://lv2plug.in/ns/ext/atom#URID"@]
                        &&& mapped.contains_key("http://lv2plug.in/ns/ext/atom#Bool"@)
                        &&& c.bool == mapped["http://lv2plug.in/ns/ext/atom#Bool"@]
                        &&& mapped.contains_key("http://lv2plug.in/ns/ext/atom#Vector"@)
                        &&& c.vector == mapped["http://lv2plug.in/ns/ext/atom#Vector"@]
                        &&& mapped.contains_key("http://lv2plug.in/ns/ext/atom#Chunk"@)
                        &&& c.chunk == mapped["http://lv2plug.in/ns/ext/atom#Chunk"@]
                        &&& mapped.contains_key("http://lv2plug.in/ns/ext/atom#Literal"@)
                        &&& c.literal == mapped["http://lv2plug.in/ns/ext/atom#Literal"@]
                        &&& mapped.contains_key("http://lv2plug.in/ns/ext/atom#Object"@)
                        &&& c.object == mapped["http://lv2plug.in/ns/ext/atom#Object"@]
                        &&& mapped.contains_key("http://lv2plug.in/ns/ext/atom#Property"@)
                        &&& c.property == mapped["http://lv2plug.in/ns/ext/atom#Property"@]
                        &&& mapped.contains_key("http://lv2plug.in/ns/ext/atom#String"@)
                        &&& c.string == mapped["http://lv2plug.in/ns/ext/atom#String"@]
                        &&& mapped.contains_key("http://lv2plug.in/ns/ext/atom#Tuple"@)
                        &&& c.tuple == mapped["http://lv2plug.in/ns/ext/atom#Tuple"@]
                        &&& mapped.contains_key("http://lv2plug.in/ns/ext/atom#Sequence"@)
                        &&& c.sequence == mapped["http://lv2plug.in/ns/ext/atom#Sequence"@]
                    },
                    None => calls.last().1 is None,
                }
            }),
    {
        let mut urids: Vec<u32> = Vec::new();
        let ghost mut calls: Seq<(Seq<char>, Option<u32>)> = Seq::empty();
        let ghost start = mapper_contents(*map);
        for i in 0..15
            invariant
                urids@.len() == i,
                calls.len() == i,
                start == mapper_contents(*old(map)),
                keeps_mappings(start, mapper_contents(*map)),
                forall|j: int| 0 <= j < i ==> #[trigger] calls[j] == (atom_uri(j), Some(urids@[j])),
                maps_prefix(mapper_contents(*map), urids@),
        {
            let uri = atom_uri_str(i);
            let ghost before = mapper_contents(*map);
            let ghost old_urids = urids@;
            let mapped = map_str(map, uri);
            proof {
                calls = calls.push((atom_uri(i as int), mapped));
                let after = mapper_contents(*map);
                assert forall|k: Seq<char>| #[trigger] start.contains_key(k) implies after.contains_key(k)
                    && after[k] == start[k] by {
                    assert(before.contains_key(k));
                }
            }
            match mapped {
                Some(u) => {
                    urids.push(u);
                    proof {
                        let after = mapper_contents(*map);
                        assert forall|j: int| 0 <= j < urids@.len() implies (#[trigger] urids@[j]
                            != 0 && after.contains_key(atom_uri(j)) && after[atom_uri(j)]
                            == urids@[j]) by {
                            if j < i {
                                assert(urids@[j] == old_urids[j]);
                                assert(before.contains_key(atom_uri(j)));
                                assert(before[atom_uri(j)] == old_urids[j]);
                            }
                        }
                    }
                },
                None => {
                    return (None, Ghost(calls));
                },
            }
        }
        let c = Self::from_urids(urids.as_slice());
        proof {
            let mapped = mapper_contents(*map);
            assert(Seq::new(15, |j: int| mapped[atom_uri(j)]) =~= urids@);
            assert(calls.last() == calls[14]);
            assert(atom_uri(0) == "http://lv2plug.in/ns/ext/atom#Blank"@);
            assert(mapped.contains_key(atom_uri(0)));
            assert(atom_uri(1) == "http://lv2plug.in/ns/ext/atom#Double"@);
            assert(mapped.contains_key(atom_uri(1)));
            assert(atom_uri(2) == "http://lv2plug.in/ns/ext/atom#Float"@);
            assert(mapped.contains_key(atom_uri(2)));
            assert(atom_uri(3) == "http://lv2plug.in/ns/ext/atom#Int"@);
            assert(mapped.contains_key(atom_uri(3)));
            assert(atom_uri(4) == "http://lv2plug.in/ns/ext/atom#Long"@);
            assert(mapped.contains_key(atom_uri(4)));
            assert(atom_uri(5) == "http://lv2plug.in/ns/ext/atom#URID"@);
            assert(mapped.contains_key(atom_uri(5)));
            assert(atom_uri(6) == "http://lv2plug.in/ns/ext/atom#Bool"@);
            assert(mapped.contains_key(atom_uri(6)));
            assert(atom_uri(7) == "http://lv2plug.in/ns/ext/atom#Vector"@);
            assert(mapped.contains_key(atom_uri(7)));
            assert(atom_uri(8) == "http://lv2plug.in/ns/ext/atom#Chunk"@);
            assert(mapped.contains_key(atom_uri(8)));
            assert(atom_uri(9) == "http://lv2plug.in/ns/ext/atom#Literal"@);
            assert(mapped.contains_key(atom_uri(9)));
            assert(atom_uri(10) == "http://lv2plug.in/ns/ext/atom#Object"@);
            assert(mapped.contains_key(atom_uri(10)));
            assert(atom_uri(11) == "http://lv2plug.in/ns/ext/atom#Property"@);
            assert(mapped.contains_key(atom_uri(11)));
            assert(atom_uri(12) == "http://lv2plug.in/ns/ext/atom#String"@);
            assert(mapped.contains_key(atom_uri(12)));
            assert(atom_uri(13) == "http://lv2plug.in/ns/ext/atom#Tuple"@);
            assert(mapped.contains_key(atom_uri(13)));
            assert(atom_uri(14) == "http://lv2plug.in/ns/ext/atom#Sequence"@);
            assert(mapped.contains_key(atom_uri(14)));
        }
        (Some(c), Ghost(calls))
    }
}

/// The URI of the atom type held by field `i` of [`AtomURIDCollection`].
pub open spec fn atom_uri(i: int) -> Seq<char> {
    if i == 0 {
        "http://lv2plug.in/ns/ext/atom#Blank"@
    } else 
    if i == 1 {
        "http://lv2plug.in/ns/ext/atom#Double"@
    } else 
    if i == 2 {
        "http://lv2plug.in/ns/ext/atom#Float"@
    } else 
    if i == 3 {
        "http://lv2plug.in/ns/ext/atom#Int"@
    } else 
    if i == 4 {
        "http://lv2plug.in/ns/ext/atom#Long"@
    } else 
    if i == 5 {
        "http://lv2plug.in/ns/ext/atom#URID"@
    } else 
    if i == 6 {
        "http://lv2plug.in/ns/ext/atom#Bool"@
    } else 
    if i == 7 {
        "http://lv2plug.in/ns/ext/atom#Vector"@
    } else 
    if i == 8 {
        "http://lv2plug.in/ns/ext/atom#Chunk"@
    } else 
    if i == 9 {
        "http://lv2plug.in/ns/ext/atom#Literal"@
    } else 
    if i == 10 {
        "http://lv2plug.in/ns/ext/atom#Object"@
    } else 
    if i == 11 {
        "http://lv2plug.in/ns/ext/atom#Property"@
    } else 
    if i == 12 {
        "http://lv2plug.in/ns/ext/atom#String"@
    } else 
    if i == 13 {
        "http://lv2plug.in/ns/ext/atom#Tuple"@
    } else 
    {
        "http://lv2plug.in/ns/ext/atom#Sequence"@
    }
}

/// The URI of the atom type held by field `i` of [`AtomURIDCollection`].
pub fn atom_uri_str(i: usize) -> (r: &'static str)
    requires
        i < 15,
    ensures
        r@ == atom_uri(i as int),
{
    if i == 0 {
        "http://lv2plug.in/ns/ext/atom#Blank"
    } else 
    if i == 1 {
        "http://lv2plug.in/ns/ext/atom#Double"
    } else 
    if i == 2 {
        "http://lv2plug.in/ns/ext/atom#Float"
    } else 
    if i == 3 {
        "http://lv2plug.in/ns/ext/atom#Int"
    } else 
    if i == 4 {
        "http://lv2plug.in/ns/ext/atom#Long"
    } else 
    if i == 5 {
        "http://lv2plug.in/ns/ext/atom#URID"
    } else 
    if i == 6 {
        "http://lv2plug.in/ns/ext/atom#Bool"
    } else 
    if i == 7 {
        "http://lv2plug.in/ns/ext/atom#Vector"
    } else 
    if i == 8 {
        "http://lv2plug.in/ns/ext/atom#Chunk"
    } else 
    if i == 9 {
        "http://lv2plug.in/ns/ext/atom#Literal"
    } else 
    if i == 10 {
        "http://lv2plug.in/ns/ext/atom#Object"
    } else 
    if i == 11 {
        "http://lv2plug.in/ns/ext/atom#Property"
    } else 
    if i == 12 {
        "http://lv2plug.in/ns/ext/atom#String"
    } else 
    if i == 13 {
        "http://lv2plug.in/ns/ext/atom#Tuple"
    } else 
    {
        "http://lv2plug.in/ns/ext/atom#Sequence"
    }
}

} // verus!
