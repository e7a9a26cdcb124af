//! Segments of Overture Maps data, cut along the tile grid: which segments
//! there are, where a segment is kept, and which segment it is cut from.

use crate::config::{joined, push_path};
use crate::geo_trig::in_extent;
use crate::geo_trig::TileCoord;
use crate::text::{decimal, decimal_string};
use vstd::prelude::*;
use vstd::string::*;

verus! {

/// Level of the segments that are fetched from the data set itself;
/// deeper segments are cut from their parents.
pub const GEODUCK_ZOOM_LEVEL: u8 = 10;

/// Deepest level of a segment.
pub const PARQUET_MAX_ZOOM_LEVEL: u8 = 16;

/// A kind of data of the data set: a theme and a type below it.
#[derive(Clone, Debug)]
pub struct OvertDataType {
    pub theme: String,
    pub _type: String,
}

/// The data of one theme and type inside one tile.
#[derive(Clone, Debug)]
pub struct OvertureMapsSegment {
    pub theme: String,
    pub _type: String,
    pub x: u64,
    pub y: u64,
    pub z: u8,
}

/// Why a segment is refused.
#[derive(Clone, Copy, Debug, PartialEq, Eq, Structural)]
pub enum SegmentError {
    /// The data set has no such theme and type.
    UnknownTheme,
    /// The level lies outside `GEODUCK_ZOOM_LEVEL..=PARQUET_MAX_ZOOM_LEVEL`.
    BadZoomLevel,
    /// Column or row lies outside the grid of the level.
    OutsideExtent,
}

/// The themes and types of the data set.
pub open spec fn overt_tables() -> Seq<(Seq<char>, Seq<char>)> {
    seq![
        ("admins"@, "administrative_boundary"@),
        ("admins"@, "locality"@),
        ("admins"@, "locality_area"@),
        ("base"@, "infrastructure"@),
        ("base"@, "land"@),
        ("base"@, "land_use"@),
        ("base"@, "water"@),
        ("buildings"@, "building"@),
        ("buildings"@, "building_part"@),
        ("divisions"@, "boundary"@),
        ("divisions"@, "division"@),
        ("divisions"@, "division_area"@),
        ("places"@, "place"@),
        ("transportation"@, "connector"@),
        ("transportation"@, "segment"@),
    ]
}

/// Name of the view on a kind of data: `<theme>_s3_view` for all types of
/// a theme (`*`), else `<theme>_<type>_s3_view`.
pub open spec fn view_name_spec(theme: Seq<char>, _type: Seq<char>) -> Seq<char> {
    if _type == "*"@ {
        theme + "_s3_view"@
    } else {
        theme + seq!['_'] + _type + "_s3_view"@
    }
}

/// What is wrong with a segment, first fault first.
pub open spec fn segment_fault(s: OvertureMapsSegment) -> Option<SegmentError> {
    if !overt_tables().contains((s.theme@, s._type@)) {
        Some(SegmentError::UnknownTheme)
    } else if s.z < GEODUCK_ZOOM_LEVEL || s.z > PARQUET_MAX_ZOOM_LEVEL {
        Some(SegmentError::BadZoomLevel)
    } else if !in_extent(s.x, s.y, s.z) {
        Some(SegmentError::OutsideExtent)
    } else {
        None
    }
}

/// Where a segment is kept: below `tile_location`, in `geoduck`, by
/// theme, type, level, column and row, as `data.geo.parquet`.
pub open spec fn segment_path(s: OvertureMapsSegment, tile_location: Seq<char>) -> Seq<char> {
    joined(
        joined(
            joined(
                joined(
                    joined(joined(joined(tile_location, "geoduck"@), s.theme@), s._type@),
                    decimal(s.z as nat),
                ),
                decimal(s.x as nat),
            ),
            decimal(s.y as nat),
        ),
        "data.geo.parquet"@,
    )
}

/// The themes and types of the data set, as a list.
fn overt_table_list() -> (tables: Vec<(String, String)>)
    ensures
        Seq::new(tables@.len(), |i: int| (tables@[i].0@, tables@[i].1@)) == overt_tables(),
{
    let mut tables: Vec<(String, String)> = Vec::new();
    tables.push((String::from_str("admins"), String::from_str("administrative_boundary")));
    tables.push((String::from_str("admins"), String::from_str("locality")));
    tables.push((String::from_str("admins"), String::from_str("locality_area")));
    tables.push((String::from_str("base"), String::from_str("infrastructure")));
    tables.push((String::from_str("base"), String::from_str("land")));
    tables.push((String::from_str("base"), String::from_str("land_use")));
    tables.push((String::from_str("base"), String::from_str("water")));
    tables.push((String::from_str("buildings"), String::from_str("building")));
    tables.push((String::from_str("buildings"), String::from_str("building_part")));
    tables.push((String::from_str("divisions"), String::from_str("boundary")));
    tables.push((String::from_str("divisions"), String::from_str("division")));
    tables.push((String::from_str("divisions"), String::from_str("division_area")));
    tables.push((String::from_str("places"), String::from_str("place")));
    tables.push((String::from_str("transportation"), String::from_str("connector")));
    tables.push((String::from_str("transportation"), String::from_str("segment")));
    proof {
        assert(Seq::new(tables@.len(), |i: int| (tables@[i].0@, tables@[i].1@)) =~= overt_tables());
    }
    tables
}

/// Whether the data set has the theme `theme` with the type `_type`.
pub fn is_overt_table(theme: &String, _type: &String) -> (known: bool)
    ensures
        known == overt_tables().contains((theme@, _type@)),
{
    let tables = overt_table_list();
    let ghost views = Seq::new(tables@.len(), |i: int| (tables@[i].0@, tables@[i].1@));
    let mut i: usize = 0;
    while i < tables.len()
        invariant
            i <= tables@.len(),
            views == Seq::new(tables@.len(), |i: int| (tables@[i].0@, tables@[i].1@)),
            views == overt_tables(),
            forall|k: int| 0 <= k < i ==> views[k] != (theme@, _type@),
        decreases tables@.len() - i,
    {
        if tables[i].0 == *theme && tables[i].1 == *_type {
            proof {
                assert(views[i as int] == (theme@, _type@));
            }
            return true;
        }
        proof {
            assert(views[i as int] != (theme@, _type@));
        }
        i += 1;
    }
    false
}


/// Name of the view on a theme and type in the local database:
/// `<theme>_view` for all types of a theme (`*`), else
/// `<theme>_<type>_view`.
pub open spec fn geo_view_name_spec(theme: Seq<char>, _type: Seq<char>) -> Seq<char> {
    if _type == "*"@ {
        theme + "_view"@
    } else {
        theme + seq!['_'] + _type + "_view"@
    }
}

/// Name of the view on a theme and type in the local database.
pub fn geo_view_name(theme: &str, _type: &str) -> (name: String)
    ensures
        name@ == geo_view_name_spec(theme@, _type@),
{
    let mut name = String::from_str(theme);
    if String::from_str(_type) == String::from_str("*") {
        name.append("_view");
    } else {
        name.push('_');
        name.append(_type);
        name.append("_view");
        proof {
            assert(name@ =~= geo_view_name_spec(theme@, _type@));
        }
    }
    name
}

impl OvertDataType {
    /// The kind of data with this theme and type.
    pub fn new(theme: &str, _type: &str) -> (kind: OvertDataType)
        ensures
            kind.theme@ == theme@,
            kind._type@ == _type@,
    {
        OvertDataType { theme: String::from_str(theme), _type: String::from_str(_type) }
    }

    /// Name of the view on this kind of data.
    pub fn view_name(&self) -> (name: String)
        ensures
            name@ == view_name_spec(self.theme@, self._type@),
    {
        let mut name = self.theme.clone();
        if self._type == String::from_str("*") {
            name.append("_s3_view");
        } else {
            name.push('_');
            name.append(self._type.as_str());
            name.append("_s3_view");
            proof {
                assert(name@ =~= view_name_spec(self.theme@, self._type@));
            }
        }
        name
    }
}

impl OvertureMapsSegment {
    /// How often a segment is tried before it is given up.
    pub fn get_retry_count() -> (n: u8)
        ensures
            n == 2,
    {
        2
    }

    /// Version of the cache tables for segments.
    pub fn get_version() -> (v: usize)
        ensures
            v == 3,
    {
        3
    }

    /// The segment that this one is cut from: the one above it in the tile
    /// grid, for a segment below `GEODUCK_ZOOM_LEVEL`; none else.
    pub fn parent(&self) -> (up: Option<OvertureMapsSegment>)
        ensures
            up is None <==> self.z <= GEODUCK_ZOOM_LEVEL,
            up matches Some(p) ==> p.theme@ == self.theme@ && p._type@ == self._type@ && p.x
                == self.x / 2 && p.y == self.y / 2 && p.z == self.z - 1,
    {
        if self.z <= GEODUCK_ZOOM_LEVEL {
            return None;
        }
        Some(
            OvertureMapsSegment {
                theme: self.theme.clone(),
                _type: self._type.clone(),
                x: self.x / 2,
                y: self.y / 2,
                z: self.z - 1,
            },
        )
    }

    /// Whether there is such a segment: the data set has the theme and
    /// type, the level lies in `GEODUCK_ZOOM_LEVEL..=PARQUET_MAX_ZOOM_LEVEL`,
    /// and column and row lie inside the grid of the level.
    pub fn is_valid_request(&self) -> (checked: Result<(), SegmentError>)
        ensures
            checked is Ok <==> segment_fault(*self) is None,
            checked matches Err(e) ==> segment_fault(*self) == Some(e),
    {
        if !is_overt_table(&self.theme, &self._type) {
            return Err(SegmentError::UnknownTheme);
        }
        if self.z < GEODUCK_ZOOM_LEVEL || self.z > PARQUET_MAX_ZOOM_LEVEL {
            return Err(SegmentError::BadZoomLevel);
        }
        let tile = TileCoord { x: self.x, y: self.y, z: self.z };
        if !tile.is_valid() {
            return Err(SegmentError::OutsideExtent);
        }
        Ok(())
    }

    /// Where the segment is kept below `tile_location`.
    pub fn get_final_path(&self, tile_location: &str) -> (path: String)
        ensures
            path@ == segment_path(*self, tile_location@),
    {
        let mut path = String::from_str(tile_location);
        push_path(&mut path, "geoduck");
        push_path(&mut path, self.theme.as_str());
        push_path(&mut path, self._type.as_str());
        push_path(&mut path, decimal_string(self.z as u64).as_str());
        push_path(&mut path, decimal_string(self.x).as_str());
        push_path(&mut path, decimal_string(self.y).as_str());
        push_path(&mut path, "data.geo.parquet");
        path
    }
}

} // verus!
