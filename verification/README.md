# duck_geocoder

Turns open geodata of Japan into GeoParquet files that browsers can query in
parts over HTTP, and into a STAC catalog that tells what there is.

The library under `src/` holds what is decided and computed, with contracts that
Verus proves. Ordinary Rust under `app/` reads and writes files, talks HTTP, runs
DuckDB and projects coordinates; its commands hand plain values to the library.

| Modules | What they are for |
| --- | --- |
| `text`, `number`, `json`, `records`, `xml`, `archive` | texts, floating-point bit patterns, and what is read in JSON, CSV, XML and zip archives |
| `geo`, `features`, `transform` | shapes and their bounds, GeoJSON, moving shapes to WGS84 |
| `geoparquet` | `geo` metadata, geometry columns, tables |
| `isj`, `isj_block`, `isj_oaza`, `metadata` | location reference data |
| `n02`, `n03` | railways and administrative areas |
| `mesh`, `mesh_pop` | grid squares and their population |
| `plateau`, `plateau_batch`, `plateau_catalog`, `codelists`, `remote_zip` | buildings of PLATEAU, read from remote archives |
| `overture`, `admin_names` | statements for Overture Maps |
| `spatial_pack`, `optimize` | the order of rows and the size of row groups |
| `datasets`, `vocabulary`, `catalog`, `stac` | the catalog |

Numbers with a fraction stand in the library as their bit patterns (`number::Real`)
or as whole units (grid squares, boxes to be packed). Where something is computed
with them, the caller passes a function: the area of a square, the place of a
sampled city, the projection to WGS84.
