use duck_geocoder::isj::{FieldError, IsjError, IsjZipError};
use duck_geocoder::{isj_block, isj_oaza};
use std::io::Write;

const BLOCK_SAMPLE: &str = "\"都道府県名\",\"市区町村名\",\"大字・丁目名\",\"小字・通称名\",\"街区符号・地番\",\"座標系番号\",\"Ｘ座標\",\"Ｙ座標\",\"緯度\",\"経度\",\"住居表示フラグ\",\"代表フラグ\",\"更新前履歴フラグ\",\"更新後履歴フラグ\"\n\"神奈川県\",\"横浜市鶴見区\",\"上の宮二丁目\",\"\",\"6\",\"9\",\"-53821.1\",\"-17911.6\",\"35.514716\",\"139.635860\",\"1\",\"1\",\"0\",\"0\"\n";

const OAZA_SAMPLE: &str = "\"都道府県コード\",\"都道府県名\",\"市区町村コード\",\"市区町村名\",\"大字町丁目コード\",\"大字町丁目名\",\"緯度\",\"経度\",\"原典資料コード\",\"大字・字・丁目区分コード\"\n\"14\",\"神奈川県\",\"14101\",\"横浜市鶴見区\",\"141010001001\",\"本町通一丁目\",\"35.502643\",\"139.680165\",\"0\",\"3\"\n";

const METADATA: &str = r#"<?xml version="1.0"?>
<MD_Metadata xmlns="http://zgate.gsi.go.jp/ch/jmp/">
  <referenceSystemInfo><referenceSystemIdentifier>
    <code> JGD2000 / (B, L) </code>
  </referenceSystemIdentifier></referenceSystemInfo>
</MD_Metadata>"#;

#[test]
fn isj_block_parses_row_and_builds_point_as_lon_lat() {
    let rows = isj_block::parse_csv(BLOCK_SAMPLE, 4612).unwrap().rows;
    assert_eq!(rows.len(), 1);
    let row = &rows[0];
    assert_eq!(row.city_name, "横浜市鶴見区");
    assert_eq!(row.oaza_name, "上の宮二丁目");
    assert_eq!(row.koaza_name, "");
    assert_eq!(row.block_number, "6");
    assert!((f64::from_bits(row.geometry.x.bits) - 139.635860).abs() < 1e-6);
    assert!((f64::from_bits(row.geometry.y.bits) - 35.514716).abs() < 1e-6);
}

#[test]
fn isj_block_rejects_malformed_row() {
    let bad = "\"都道府県名\"\n\"神奈川県\",\"余計な列\"\n";
    assert!(isj_block::parse_csv(bad, 4612).is_err());
}

#[test]
fn isj_oaza_parses_row_and_builds_point_as_lon_lat() {
    let rows = isj_oaza::parse_csv(OAZA_SAMPLE, 4612).unwrap().rows;
    assert_eq!(rows.len(), 1);
    let row = &rows[0];
    assert_eq!(row.pref_name, "神奈川県");
    assert_eq!(row.city_name, "横浜市鶴見区");
    assert_eq!(row.oaza_name, "本町通一丁目");
    assert!((f64::from_bits(row.geometry.x.bits) - 139.680165).abs() < 1e-6);
    assert!((f64::from_bits(row.geometry.y.bits) - 35.502643).abs() < 1e-6);
}

#[test]
fn isj_oaza_rejects_malformed_row() {
    let bad = "\"都道府県コード\",\"都道府県名\"\n\"14\"\n";
    assert!(isj_oaza::parse_csv(bad, 4612).is_err());
}

#[test]
fn bounds_hold_every_point() {
    let two = format!(
        "{OAZA_SAMPLE}\"14\",\"神奈川県\",\"14101\",\"横浜市鶴見区\",\"x\",\"y\",\"36.0\",\"138.5\",\"0\",\"3\"\n"
    );
    let source = isj_oaza::parse_csv(&two, 4612).unwrap();
    assert_eq!(source.rows.len(), 2);
    assert_eq!(source.epsg, 4612);
    assert_eq!(f64::from_bits(source.bounds.xmin.bits), 138.5);
    assert_eq!(f64::from_bits(source.bounds.ymin.bits), 35.502643);
    assert_eq!(f64::from_bits(source.bounds.xmax.bits), 139.680165);
    assert_eq!(f64::from_bits(source.bounds.ymax.bits), 36.0);
}

#[test]
fn a_latitude_has_to_be_a_number() {
    let bad = OAZA_SAMPLE.replace("35.502643", "north");
    assert!(isj_oaza::parse_csv(&bad, 4612).is_err());
    let byte = bad.find('\n').unwrap() + 1;
    assert_eq!(
        isj_oaza::parse_csv(&bad, 4612).unwrap_err().to_string(),
        format!("CSV deserialize error: record 1 (line: 2, byte: {byte}): field 6: invalid float literal")
    );
}

fn archive(entries: &[(&str, Vec<u8>)]) -> Vec<u8> {
    let mut zip = zip::ZipWriter::new(std::io::Cursor::new(Vec::new()));
    for (name, data) in entries {
        zip.start_file(*name, zip::write::SimpleFileOptions::default())
            .unwrap();
        zip.write_all(data).unwrap();
    }
    zip.finish().unwrap().into_inner()
}

fn sjis(text: &str) -> Vec<u8> {
    encoding_rs::SHIFT_JIS.encode(text).0.into_owned()
}

#[test]
fn reads_an_archive_in_shift_jis() {
    let zip = archive(&[("14000.csv", sjis(BLOCK_SAMPLE)), ("META_14000.xml", sjis(METADATA))]);
    let source = isj_block::parse_zip(&zip).unwrap();
    assert_eq!(source.epsg, 4612);
    assert_eq!(source.rows[0].city_name, "横浜市鶴見区");

    let zip = archive(&[("14000.csv", sjis(OAZA_SAMPLE)), ("META_14000.xml", sjis(METADATA))]);
    assert_eq!(isj_oaza::parse_zip(&zip).unwrap().rows[0].pref_code, "14");
}

#[test]
fn reports_what_an_archive_lacks() {
    let zip = archive(&[("14000.csv", sjis(BLOCK_SAMPLE))]);
    assert!(isj_block::parse_zip(&zip).is_err());
    let strange = METADATA.replace("JGD2000", "JGD2024");
    let zip = archive(&[("14000.csv", sjis(BLOCK_SAMPLE)), ("META.xml", sjis(&strange))]);
    let err = isj_block::parse_zip(&zip).unwrap_err();
    assert!(matches!(err, IsjZipError::Epsg(_)));
    assert!(err.to_string().contains("JGD2024"));
}

#[test]
fn blocks_and_towns_have_columns_of_text() {
    let blocks = isj_block::columns_of(&isj_block::parse_csv(BLOCK_SAMPLE, 4612).unwrap().rows);
    assert_eq!(blocks.len(), 7);
    assert_eq!(blocks[4].name, "block_number");
    let towns = isj_oaza::columns_of(&isj_oaza::parse_csv(OAZA_SAMPLE, 4612).unwrap().rows);
    assert_eq!(towns[1].name, "pref_name");
}

#[test]
fn a_missing_column_is_an_error() {
    let renamed = BLOCK_SAMPLE.replace("代表フラグ", "別のフラグ");
    let err = isj_block::parse_csv(&renamed, 4612).unwrap_err();
    assert!(matches!(&err, IsjError::Fields(_, FieldError::Missing(name)) if name == "代表フラグ"));
    let byte = renamed.find('\n').unwrap() + 1;
    assert_eq!(
        err.to_string(),
        format!("CSV deserialize error: record 1 (line: 2, byte: {byte}): missing field `代表フラグ`")
    );
}

#[test]
fn the_first_fault_of_a_record_is_told() {
    let doubled = BLOCK_SAMPLE.replace("更新前履歴フラグ", "緯度");
    let err = isj_block::parse_csv(&doubled, 4612).unwrap_err();
    assert!(err.to_string().ends_with("duplicate field `緯度`"), "{err:?}");
    // Columns are gone through in order, before any is found missing.
    let worse = BLOCK_SAMPLE.replace("代表フラグ", "別のフラグ").replace("139.635860", "east");
    let err = isj_block::parse_csv(&worse, 4612).unwrap_err();
    assert!(err.to_string().ends_with("field 9: invalid float literal"), "{err:?}");
    let both = BLOCK_SAMPLE.replace("経度", "x").replace("市区町村名", "y");
    let err = isj_block::parse_csv(&both, 4612).unwrap_err();
    assert!(err.to_string().ends_with("missing field `市区町村名`"), "{err:?}");
}

#[test]
fn a_record_of_another_length_is_an_error() {
    let short = format!("{OAZA_SAMPLE}\"14\",\"神奈川県\"\n");
    let err = isj_oaza::parse_csv(&short, 4612).unwrap_err();
    assert!(matches!(err, IsjError::Record(_)));
    let byte = OAZA_SAMPLE.len();
    assert_eq!(
        err.to_string(),
        format!(
            "CSV error: record 2 (line: 3, byte: {byte}): \
             found record with 2 fields, but the previous record has 10 fields"
        )
    );
}
