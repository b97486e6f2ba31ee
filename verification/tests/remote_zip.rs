use duck_geocoder::remote_zip::{
    content_range_total, range_header, FetchError, FetchRange, RangeReader, SeekFrom, MAX_CHUNK,
    MIN_CHUNK,
};
use std::cell::RefCell;

struct Fake {
    data: Vec<u8>,
    calls: RefCell<Vec<(u64, u64)>>,
}

impl Fake {
    fn new(data: Vec<u8>) -> Self {
        Self {
            data,
            calls: RefCell::new(Vec::new()),
        }
    }
}

impl FetchRange for Fake {
    fn total_len(&self) -> Result<u64, FetchError> {
        Ok(self.data.len() as u64)
    }
    fn fetch(&self, start: u64, end: u64) -> Result<Vec<u8>, FetchError> {
        self.calls.borrow_mut().push((start, end));
        Ok(self.data[start as usize..=(end as usize).min(self.data.len() - 1)].to_vec())
    }
}

fn sample() -> Vec<u8> {
    (0..=255u8).cycle().take(1000).collect()
}

fn read_exact<F: FetchRange>(reader: &mut RangeReader<F>, out: &mut [u8]) {
    let mut at = 0;
    while at < out.len() {
        let n = reader.read(&mut out[at..]).unwrap();
        assert!(n > 0);
        at += n;
    }
}

fn read_to_end<F: FetchRange>(reader: &mut RangeReader<F>) -> Vec<u8> {
    let mut all = Vec::new();
    let mut buf = vec![0u8; 8192];
    loop {
        let n = reader.read(&mut buf).unwrap();
        if n == 0 {
            return all;
        }
        all.extend_from_slice(&buf[..n]);
    }
}

#[test]
fn reads_from_the_start() {
    let mut reader = RangeReader::new(Fake::new(sample())).unwrap();
    let mut buf = [0u8; 4];
    read_exact(&mut reader, &mut buf);
    assert_eq!(buf, [0, 1, 2, 3]);
}

#[test]
fn seeks_relative_to_the_end() {
    let data = sample();
    let mut reader = RangeReader::new(Fake::new(data.clone())).unwrap();
    reader.seek(SeekFrom::End(-3)).unwrap();
    let mut buf = [0u8; 3];
    read_exact(&mut reader, &mut buf);
    assert_eq!(buf.to_vec(), data[997..1000].to_vec());
}

#[test]
fn seeks_relative_to_the_current_position() {
    let mut reader = RangeReader::new(Fake::new(sample())).unwrap();
    reader.seek(SeekFrom::Start(10)).unwrap();
    reader.seek(SeekFrom::Current(5)).unwrap();
    let mut buf = [0u8; 1];
    read_exact(&mut reader, &mut buf);
    assert_eq!(buf[0], 15);
}

#[test]
fn rejects_seeking_before_the_start() {
    let mut reader = RangeReader::new(Fake::new(sample())).unwrap();
    assert!(reader.seek(SeekFrom::End(-2000)).is_err());
    let err = reader.seek(SeekFrom::End(-2000)).unwrap_err();
    assert_eq!(err.position, -1000);
    assert_eq!(err.to_string(), "先頭より前へのSeek: -1000");
}

#[test]
fn reads_nothing_past_the_end() {
    let mut reader = RangeReader::new(Fake::new(sample())).unwrap();
    reader.seek(SeekFrom::Start(5000)).unwrap();
    assert_eq!(reader.read(&mut [0u8; 4]).unwrap(), 0);
}

struct ShortFetch {
    data: Vec<u8>,
    requested: RefCell<Vec<u64>>,
}

impl FetchRange for ShortFetch {
    fn total_len(&self) -> Result<u64, FetchError> {
        Ok(self.data.len() as u64)
    }
    fn fetch(&self, start: u64, end: u64) -> Result<Vec<u8>, FetchError> {
        let asked = end - start + 1;
        self.requested.borrow_mut().push(asked);
        let give = (asked / 2).max(1) as usize;
        let stop = (start as usize + give).min(self.data.len());
        Ok(self.data[start as usize..stop].to_vec())
    }
}

#[test]
fn keeps_growing_even_when_the_server_returns_less_than_asked() {
    let data: Vec<u8> = (0..=255u8).cycle().take(4 * 1024 * 1024).collect();
    let source = ShortFetch {
        data: data.clone(),
        requested: RefCell::new(Vec::new()),
    };
    let mut reader = RangeReader::new(source).unwrap();
    let got = read_to_end(&mut reader);
    assert_eq!(got, data, "全部読めること");

    let requested = reader.source().requested.borrow();
    let biggest = requested.iter().copied().max().unwrap();
    assert!(
        biggest > MIN_CHUNK,
        "まとめ読みが育っていない (最大 {biggest}、最小 {MIN_CHUNK})"
    );
}

#[test]
fn buffers_so_nearby_reads_share_one_fetch() {
    let mut reader = RangeReader::new(Fake::new(sample()))
        .unwrap()
        .with_chunk_size(512);
    for _ in 0..100 {
        read_exact(&mut reader, &mut [0u8; 1]);
    }
    assert_eq!(reader.stats().0, 1, "100回読んでも取得は1回のはず");
}

#[test]
fn never_requests_past_the_end() {
    let data = sample();
    let fake = Fake::new(data.clone());
    let mut reader = RangeReader::new(fake).unwrap().with_chunk_size(4096);
    reader.seek(SeekFrom::Start(900)).unwrap();
    read_exact(&mut reader, &mut [0u8; 10]);
    let (_, end) = *reader.source().calls.borrow().last().unwrap();
    assert!(end < data.len() as u64, "末尾 {end} を要求している");
}

#[test]
fn pieces_grow_in_order_and_shrink_after_a_jump() {
    let data = vec![7u8; 40 * 1024 * 1024];
    let mut reader = RangeReader::new(Fake::new(data)).unwrap();
    read_to_end(&mut reader);
    reader.seek(SeekFrom::Start(1)).unwrap();
    read_exact(&mut reader, &mut [0u8; 1]);
    let calls = reader.source().calls.borrow();
    let sizes: Vec<u64> = calls.iter().map(|(a, b)| b - a + 1).collect();
    assert_eq!(sizes[0], MIN_CHUNK);
    assert_eq!(sizes[1], 2 * MIN_CHUNK);
    assert!(sizes.contains(&MAX_CHUNK));
    assert!(sizes.iter().all(|s| *s <= MAX_CHUNK));
    assert_eq!(*sizes.last().unwrap(), MIN_CHUNK);
}

struct Broken {
    reply: Result<Vec<u8>, String>,
}

impl FetchRange for Broken {
    fn total_len(&self) -> Result<u64, FetchError> {
        match &self.reply {
            Ok(_) => Ok(10),
            Err(message) => Err(FetchError { message: message.clone() }),
        }
    }
    fn fetch(&self, _: u64, _: u64) -> Result<Vec<u8>, FetchError> {
        match &self.reply {
            Ok(bytes) => Ok(bytes.clone()),
            Err(message) => Err(FetchError { message: message.clone() }),
        }
    }
}

#[test]
fn an_empty_reply_is_an_error() {
    let mut reader = RangeReader::new(Broken { reply: Ok(vec![]) }).unwrap();
    let err = reader.read(&mut [0u8; 4]).unwrap_err();
    assert_eq!(err.message, "範囲 0-9 が空で返りました");
    assert_eq!(reader.stats(), (0, 0));
}

struct Silent;

impl FetchRange for Silent {
    fn total_len(&self) -> Result<u64, FetchError> {
        Ok(10)
    }
    fn fetch(&self, start: u64, end: u64) -> Result<Vec<u8>, FetchError> {
        Err(FetchError { message: format!("{start}-{end} refused") })
    }
}

#[test]
fn an_error_of_the_source_is_passed_on() {
    let mut reader = RangeReader::new(Silent).unwrap();
    reader.seek(SeekFrom::Start(3)).unwrap();
    let err = reader.read(&mut [0u8; 4]).unwrap_err();
    assert_eq!(err.message, "3-9 refused");
}

#[test]
fn an_unknown_length_is_an_error() {
    let err = RangeReader::new(Broken { reply: Err("no".to_string()) }).err().unwrap();
    assert_eq!(err, FetchError { message: "no".to_string() });
}

#[test]
fn counts_what_it_fetches() {
    let mut reader = RangeReader::new(Fake::new(sample())).unwrap().with_chunk_size(0);
    read_exact(&mut reader, &mut [0u8; 3]);
    assert_eq!(reader.stats(), (3, 3));
}

#[test]
fn reads_the_length_from_a_content_range() {
    assert_eq!(content_range_total("bytes 0-0/483129586"), Some(483129586));
    assert_eq!(content_range_total("bytes 0-0/ 12 "), Some(12));
    assert_eq!(content_range_total("bytes 0-0/*"), None);
    assert_eq!(content_range_total("12"), Some(12));
    assert_eq!(range_header(5, 1000), "bytes=5-1000");
}
