//! Open geospatial data of Japan as GeoParquet: reading what is published,
//! ordering it for partial reads, and describing it in a STAC catalog.
use vstd::prelude::*;

pub mod admin_names;
pub mod archive;
pub mod catalog;
pub mod codelists;
pub mod datasets;
pub mod features;
pub mod geo;
pub mod geoparquet;
pub mod isj;
pub mod isj_block;
pub mod isj_oaza;
pub mod json;
pub mod mesh;
pub mod mesh_pop;
pub mod metadata;
pub mod n02;
pub mod n03;
pub mod number;
pub mod optimize;
pub mod overture;
pub mod plateau;
pub mod plateau_batch;
pub mod plateau_catalog;
pub mod records;
pub mod remote_zip;
pub mod spatial_pack;
pub mod stac;
pub mod text;
pub mod transform;
pub mod vocabulary;
pub mod xml;

pub use archive::{decode_sjis, read_zip_entry, read_zip_entry_bytes};
pub use metadata::extract_epsg_from_isj_metadata_xml;

verus! {

} // verus!
