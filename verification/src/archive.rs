//! Files inside zip archives, and the texts in them.
use crate::text;
use crate::text::{contains, ends_with, quote_list};
use vstd::prelude::*;

verus! {

// ---------------------------------------------------------------------------
// zip
// ---------------------------------------------------------------------------

/// The names of the entries of a zip archive in order, as `zip::ZipArchive`
/// reads them. Where it reports an error: whether that was on an entry of the
/// archive, and what it says.
pub uninterp spec fn zip_names(zip: Seq<u8>) -> Result<Seq<Seq<char>>, (bool, Seq<char>)>;

/// The content of the entry of that name, as `zip::ZipArchive::by_name` finds
/// and reads it, or what the error says.
pub uninterp spec fn zip_entry(zip: Seq<u8>, name: Seq<char>) -> Result<Seq<u8>, Seq<char>>;

/// `zip::ZipArchive::new` on bytes in memory, then `by_index` and
/// `ZipFile::name` for each entry: a function of the bytes, and so is the error
/// by its text, with the archive's own told from that of an entry.
#[verifier::external_body]
fn entry_names(zip: &Vec<u8>) -> (names: Result<Vec<String>, (bool, String)>)
    ensures
        match names {
            Ok(list) => zip_names(zip@) == Ok::<Seq<Seq<char>>, (bool, Seq<char>)>(
                text::texts(list@),
            ),
            Err(e) => zip_names(zip@) == Err::<Seq<Seq<char>>, (bool, Seq<char>)>((e.0, e.1@)),
        },
{
    let opened = zip::ZipArchive::new(std::io::Cursor::new(zip));
    let mut archive = opened.map_err(|e| (false, e.to_string()))?;
    let mut names = Vec::new();
    for i in 0..archive.len() {
        let entry = archive.by_index(i).map_err(|e| (true, e.to_string()))?;
        names.push(entry.name().map_err(|e| (true, e.to_string()))?.to_string());
    }
    Ok(names)
}

/// `zip::ZipArchive::by_name` on an archive in memory, read to its end: a
/// function of the archive's bytes and the name, and so is the error by its text.
#[verifier::external_body]
fn entry_content(zip: &Vec<u8>, name: &str) -> (content: Result<Vec<u8>, String>)
    ensures
        match content {
            Ok(bytes) => zip_entry(zip@, name@) == Ok::<Seq<u8>, Seq<char>>(bytes@),
            Err(e) => zip_entry(zip@, name@) == Err::<Seq<u8>, Seq<char>>(e@),
        },
{
    let opened = zip::ZipArchive::new(std::io::Cursor::new(zip));
    let mut archive = opened.map_err(|e| e.to_string())?;
    let mut entry = archive.by_name(name).map_err(|e| e.to_string())?;
    let mut bytes = Vec::new();
    std::io::copy(&mut entry, &mut bytes).map_err(|e| e.to_string())?;
    Ok(bytes)
}

// ---------------------------------------------------------------------------
// Entries
// ---------------------------------------------------------------------------

/// Why an archive gave no entry.
#[derive(Debug, PartialEq)]
pub enum ZipEntryError {
    /// The archive cannot be opened, for that reason.
    NotZip(String),
    NoMatch,
    /// More than one entry was meant; these are their names.
    Several(Vec<String>),
    /// An entry cannot be read, for that reason.
    Unreadable(String),
}

/// The view of a [`ZipEntryError`].
pub enum ZipEntryFault {
    NotZip(Seq<char>),
    NoMatch,
    Several(Seq<Seq<char>>),
    Unreadable(Seq<char>),
}

impl View for ZipEntryError {
    type V = ZipEntryFault;

    open spec fn view(&self) -> ZipEntryFault {
        match self {
            ZipEntryError::NotZip(cause) => ZipEntryFault::NotZip(cause@),
            ZipEntryError::NoMatch => ZipEntryFault::NoMatch,
            ZipEntryError::Several(names) => ZipEntryFault::Several(text::texts(names@)),
            ZipEntryError::Unreadable(cause) => ZipEntryFault::Unreadable(cause@),
        }
    }
}

impl ZipEntryFault {
    pub open spec fn spec_text(self) -> Seq<char> {
        match self {
            ZipEntryFault::NotZip(cause) => "failed to read zip archive: "@ + cause,
            ZipEntryFault::NoMatch => "no matching entry found"@,
            ZipEntryFault::Several(names) => "multiple entries matched: "@ + text::quoted_list(
                names,
            ) + " (need a more specific predicate)"@,
            ZipEntryFault::Unreadable(cause) => cause,
        }
    }
}

impl ZipEntryError {
    pub fn to_string(&self) -> (text: String)
        ensures
            text@ == self@.spec_text(),
    {
        let mut text = String::new();
        match self {
            ZipEntryError::NotZip(cause) => {
                text.append("failed to read zip archive: ");
                text.append(cause.as_str());
            },
            ZipEntryError::NoMatch => {
                text.append("no matching entry found");
            },
            ZipEntryError::Several(names) => {
                text.append("multiple entries matched: ");
                text.append(quote_list(names).as_str());
                text.append(" (need a more specific predicate)");
            },
            ZipEntryError::Unreadable(cause) => {
                text.append(cause.as_str());
                assert(text@ =~= cause@);
            },
        }
        text
    }
}

/// The names that were hit.
pub open spec fn hit_names(names: Seq<Seq<char>>, hits: Seq<bool>) -> Seq<Seq<char>>
    decreases names.len(),
{
    if names.len() == 0 {
        Seq::empty()
    } else if hits.last() {
        hit_names(names.drop_last(), hits.drop_last()).push(names.last())
    } else {
        hit_names(names.drop_last(), hits.drop_last())
    }
}

/// Why names could not be had.
pub open spec fn names_fault(e: (bool, Seq<char>)) -> ZipEntryFault {
    if e.0 {
        ZipEntryFault::Unreadable(e.1)
    } else {
        ZipEntryFault::NotZip(e.1)
    }
}

/// The content of the one entry of these names.
pub open spec fn single_entry(zip: Seq<u8>, names: Seq<Seq<char>>) -> Result<
    Seq<u8>,
    ZipEntryFault,
> {
    if names.len() == 0 {
        Err(ZipEntryFault::NoMatch)
    } else if names.len() > 1 {
        Err(ZipEntryFault::Several(names))
    } else {
        match zip_entry(zip, names[0]) {
            Ok(bytes) => Ok(bytes),
            Err(cause) => Err(ZipEntryFault::Unreadable(cause)),
        }
    }
}

/// The view of what reading an entry gave.
pub open spec fn entry_result(r: Result<Vec<u8>, ZipEntryError>) -> Result<
    Seq<u8>,
    ZipEntryFault,
> {
    match r {
        Ok(bytes) => Ok(bytes@),
        Err(e) => Err(e@),
    }
}

fn read_single(zip: &Vec<u8>, names: &Vec<String>, hits: &Vec<bool>) -> (r: Result<
    Vec<u8>,
    ZipEntryError,
>)
    requires
        names@.len() == hits@.len(),
    ensures
        entry_result(r) == single_entry(zip@, hit_names(text::texts(names@), hits@)),
{
    let ghost all = text::texts(names@);
    let mut found: Vec<String> = Vec::new();
    let mut i: usize = 0;
    assert(all.take(0) == Seq::<Seq<char>>::empty());
    assert(text::texts(found@) =~= Seq::<Seq<char>>::empty());
    while i < names.len()
        invariant
            i <= names@.len() == hits@.len(),
            all == text::texts(names@),
            text::texts(found@) == hit_names(all.take(i as int), hits@.take(i as int)),
        decreases names@.len() - i,
    {
        let ghost before = text::texts(found@);
        assert(all.take(i + 1).drop_last() == all.take(i as int));
        assert(hits@.take(i + 1).drop_last() == hits@.take(i as int));
        if hits[i] {
            found.push(names[i].clone());
            assert(text::texts(found@) =~= before.push(names@[i as int]@));
        }
        i = i + 1;
    }
    assert(all.take(i as int) == all);
    assert(hits@.take(i as int) == hits@);
    if found.len() == 0 {
        return Err(ZipEntryError::NoMatch);
    }
    if found.len() > 1 {
        return Err(ZipEntryError::Several(found));
    }
    assert(text::texts(found@)[0] == found@[0]@);
    match entry_content(zip, found[0].as_str()) {
        Ok(bytes) => Ok(bytes),
        Err(cause) => Err(ZipEntryError::Unreadable(cause)),
    }
}

/// `matches` says `hit` of a text with that content.
pub open spec fn says<F: Fn(&str) -> bool>(matches: F, name: Seq<char>, hit: bool) -> bool {
    exists|s: &str| s@ == name && #[trigger] call_ensures(matches, (s,), hit)
}

/// `hits` is what `matches` says of each name.
pub open spec fn says_all<F: Fn(&str) -> bool>(
    matches: F,
    names: Seq<Seq<char>>,
    hits: Seq<bool>,
) -> bool {
    hits.len() == names.len() && forall|i: int|
        0 <= i < names.len() ==> says(matches, #[trigger] names[i], hits[i])
}

/// `result` is the entry of the names that `matches` says yes to.
pub open spec fn reads_by<F: Fn(&str) -> bool>(
    matches: F,
    zip: Seq<u8>,
    names: Seq<Seq<char>>,
    hits: Seq<bool>,
    result: Result<Seq<u8>, ZipEntryFault>,
) -> bool {
    says_all(matches, names, hits) && result == single_entry(zip, hit_names(names, hits))
}

/// Reads the one entry of an archive whose name `matches` accepts. None or
/// several are an error: an archive can hold two versions of the same data,
/// and the wrong one must not be taken in silence.
pub fn read_zip_entry<F: Fn(&str) -> bool>(zip: &Vec<u8>, matches: F) -> (r: Result<
    Vec<u8>,
    ZipEntryError,
>)
    requires
        forall|s: &str| #[trigger] call_requires(matches, (s,)),
    ensures
        zip_names(zip@) is Err ==> entry_result(r) == Err::<Seq<u8>, ZipEntryFault>(
            names_fault(zip_names(zip@)->Err_0),
        ),
        zip_names(zip@) is Ok ==> exists|hits: Seq<bool>| #[trigger]
            reads_by(matches, zip@, zip_names(zip@)->Ok_0, hits, entry_result(r)),
{
    let names = match entry_names(zip) {
        Ok(names) => names,
        Err((true, cause)) => {
            return Err(ZipEntryError::Unreadable(cause));
        },
        Err((false, cause)) => {
            return Err(ZipEntryError::NotZip(cause));
        },
    };
    let ghost all = text::texts(names@);
    let mut hits: Vec<bool> = Vec::new();
    let mut i: usize = 0;
    while i < names.len()
        invariant
            i <= names@.len(),
            all == text::texts(names@),
            forall|s: &str| #[trigger] call_requires(matches, (s,)),
            hits@.len() == i,
            forall|k: int| 0 <= k < i ==> says(matches, #[trigger] all[k], hits@[k]),
        decreases names@.len() - i,
    {
        let name = names[i].as_str();
        let hit: bool = matches(name);
        assert(all[i as int] == name@);
        assert(says(matches, all[i as int], hit));
        hits.push(hit);
        i = i + 1;
    }
    let r = read_single(zip, &names, &hits);
    assert(reads_by(matches, zip@, zip_names(zip@)->Ok_0, hits@, entry_result(r)));
    r
}

/// What the name of an entry has to be like.
#[derive(Debug, Clone, Copy)]
pub struct NameRule {
    pub suffix: &'static str,
    /// It also holds this.
    pub with: Option<&'static str>,
    /// It does not hold this.
    pub without: Option<&'static str>,
}

impl NameRule {
    pub open spec fn accepts(self, name: Seq<char>) -> bool {
        &&& text::has_suffix(name, self.suffix@)
        &&& match self.with {
            Some(part) => text::has_part(name, part@),
            None => true,
        }
        &&& match self.without {
            Some(part) => !text::has_part(name, part@),
            None => true,
        }
    }

    pub fn accept(&self, name: &str) -> (b: bool)
        ensures
            b == self.accepts(name@),
    {
        ends_with(name, self.suffix) && match self.with {
            Some(part) => contains(name, part),
            None => true,
        } && match self.without {
            Some(part) => !contains(name, part),
            None => true,
        }
    }
}

/// The names that a rule accepts.
pub open spec fn accepted(rule: NameRule, names: Seq<Seq<char>>) -> Seq<Seq<char>> {
    hit_names(names, Seq::new(names.len(), |i: int| rule.accepts(names[i])))
}

/// The entry of an archive by a rule on its name.
pub open spec fn entry_by_rule(zip: Seq<u8>, rule: NameRule) -> Result<Seq<u8>, ZipEntryFault> {
    match zip_names(zip) {
        Err(e) => Err(names_fault(e)),
        Ok(names) => single_entry(zip, accepted(rule, names)),
    }
}

/// Reads the one entry of an archive whose name a rule accepts.
pub fn read_zip_entry_by(zip: &Vec<u8>, rule: NameRule) -> (r: Result<Vec<u8>, ZipEntryError>)
    ensures
        entry_result(r) == entry_by_rule(zip@, rule),
{
    let accept = |name: &str| -> (b: bool)
        ensures
            b == rule.accepts(name@),
        { rule.accept(name) };
    let r = read_zip_entry(zip, accept);
    proof {
        if let Ok(names) = zip_names(zip@) {
            let hits = choose|hits: Seq<bool>| #[trigger]
                reads_by(accept, zip@, names, hits, entry_result(r));
            assert forall|i: int| 0 <= i < names.len() implies hits[i] == rule.accepts(
                names[i],
            ) by {
                assert(says(accept, names[i], hits[i]));
            }
            assert(hits =~= Seq::new(names.len(), |i: int| rule.accepts(names[i])));
        }
    }
    r
}

/// The entry of an archive by the end of its name.
pub open spec fn entry_by_suffix(zip: Seq<u8>, suffix: Seq<char>) -> Result<
    Seq<u8>,
    ZipEntryFault,
> {
    match zip_names(zip) {
        Err(e) => Err(names_fault(e)),
        Ok(names) => single_entry(
            zip,
            hit_names(names, Seq::new(names.len(), |i: int| text::has_suffix(names[i], suffix))),
        ),
    }
}

/// Reads the one entry of an archive whose name ends so.
pub fn read_zip_entry_bytes(zip: &Vec<u8>, extension: &str) -> (r: Result<Vec<u8>, ZipEntryError>)
    ensures
        entry_result(r) == entry_by_suffix(zip@, extension@),
{
    let matches = |name: &str| -> (b: bool)
        ensures
            b == text::has_suffix(name@, extension@),
        { ends_with(name, extension) };
    let r = read_zip_entry(zip, matches);
    proof {
        if let Ok(names) = zip_names(zip@) {
            let hits = choose|hits: Seq<bool>| #[trigger]
                reads_by(matches, zip@, names, hits, entry_result(r));
            assert forall|i: int| 0 <= i < names.len() implies hits[i] == text::has_suffix(
                names[i],
                extension@,
            ) by {
                assert(says(matches, names[i], hits[i]));
            }
            assert(hits =~= Seq::new(
                names.len(),
                |i: int| text::has_suffix(names[i], extension@),
            ));
        }
    }
    r
}

/// An entry is only ever read where exactly one name was accepted.
pub proof fn law_ambiguity_is_an_error(zip: Seq<u8>, names: Seq<Seq<char>>)
    ensures
        single_entry(zip, names) is Ok ==> names.len() == 1,
        names.len() > 1 ==> single_entry(zip, names) == Err::<Seq<u8>, ZipEntryFault>(
            ZipEntryFault::Several(names),
        ),
        names.len() == 0 ==> single_entry(zip, names) == Err::<Seq<u8>, ZipEntryFault>(
            ZipEntryFault::NoMatch,
        ),
{
}

// ---------------------------------------------------------------------------
// Texts
// ---------------------------------------------------------------------------

/// What `encoding_rs::SHIFT_JIS` decodes bytes to.
pub uninterp spec fn sjis_text(bytes: Seq<u8>) -> Seq<char>;

/// `encoding_rs::Encoding::decode` with Shift-JIS: a function of the bytes.
/// Malformed ones become replacement characters.
#[verifier::external_body]
pub fn decode_sjis(bytes: &[u8]) -> (text: String)
    ensures
        text@ == sjis_text(bytes@),
{
    encoding_rs::SHIFT_JIS.decode(bytes).0.into_owned()
}

/// What the error of `String::from_utf8` says of bytes that are not UTF-8.
pub uninterp spec fn utf8_problem(bytes: Seq<u8>) -> Seq<char>;

/// `String::from_utf8`: the text that bytes encode, where they are valid UTF-8,
/// else the text of the error, which tells where they are not.
#[verifier::external_body]
pub(crate) fn utf8_text(bytes: Vec<u8>) -> (text: Result<String, String>)
    ensures
        match text {
            Ok(s) => vstd::utf8::valid_utf8(bytes@) && s@ == vstd::utf8::decode_utf8(bytes@),
            Err(e) => !vstd::utf8::valid_utf8(bytes@) && e@ == utf8_problem(bytes@),
        },
{
    String::from_utf8(bytes).map_err(|e| e.to_string())
}

/// Why an archive gave no text.
#[derive(Debug, PartialEq)]
pub enum ZipTextError {
    Entry(ZipEntryError),
    /// The content is not UTF-8, for that reason.
    NotUtf8(String),
}

/// The view of a [`ZipTextError`].
pub enum ZipTextFault {
    Entry(ZipEntryFault),
    NotUtf8(Seq<char>),
}

impl View for ZipTextError {
    type V = ZipTextFault;

    open spec fn view(&self) -> ZipTextFault {
        match self {
            ZipTextError::Entry(e) => ZipTextFault::Entry(e@),
            ZipTextError::NotUtf8(cause) => ZipTextFault::NotUtf8(cause@),
        }
    }
}

impl ZipTextFault {
    /// What is said where the entry was meant to be `what`.
    pub open spec fn spec_text(self, what: Seq<char>) -> Seq<char> {
        match self {
            ZipTextFault::Entry(e) => e.spec_text(),
            ZipTextFault::NotUtf8(cause) => what + " is expected to be UTF-8: "@ + cause,
        }
    }
}

impl ZipTextError {
    pub fn to_text(&self, what: &str) -> (text: String)
        ensures
            text@ == self@.spec_text(what@),
    {
        match self {
            ZipTextError::Entry(e) => e.to_string(),
            ZipTextError::NotUtf8(cause) => {
                let mut text = what.to_string();
                text.append(" is expected to be UTF-8: ");
                text.append(cause.as_str());
                text
            },
        }
    }
}

/// The text of the entry that a rule accepts, in UTF-8.
pub open spec fn utf8_by_rule(zip: Seq<u8>, rule: NameRule) -> Result<Seq<char>, ZipTextFault> {
    match entry_by_rule(zip, rule) {
        Err(e) => Err(ZipTextFault::Entry(e)),
        Ok(bytes) => if vstd::utf8::valid_utf8(bytes) {
            Ok(vstd::utf8::decode_utf8(bytes))
        } else {
            Err(ZipTextFault::NotUtf8(utf8_problem(bytes)))
        },
    }
}

/// Reads the text of the one entry whose name a rule accepts, in UTF-8.
pub fn read_utf8_by(zip: &Vec<u8>, rule: NameRule) -> (r: Result<String, ZipTextError>)
    ensures
        match r {
            Ok(s) => utf8_by_rule(zip@, rule) == Ok::<Seq<char>, ZipTextFault>(s@),
            Err(e) => utf8_by_rule(zip@, rule) == Err::<Seq<char>, ZipTextFault>(e@),
        },
{
    match read_zip_entry_by(zip, rule) {
        Ok(bytes) => match utf8_text(bytes) {
            Ok(s) => Ok(s),
            Err(cause) => Err(ZipTextError::NotUtf8(cause)),
        },
        Err(e) => Err(ZipTextError::Entry(e)),
    }
}

/// The text of the entry whose name ends so, in Shift-JIS.
pub open spec fn sjis_by_suffix(zip: Seq<u8>, suffix: Seq<char>) -> Result<
    Seq<char>,
    ZipEntryFault,
> {
    match entry_by_suffix(zip, suffix) {
        Ok(bytes) => Ok(sjis_text(bytes)),
        Err(e) => Err(e),
    }
}

/// Reads the text of the one entry whose name ends so, in Shift-JIS.
pub fn read_sjis_by_suffix(zip: &Vec<u8>, suffix: &str) -> (r: Result<String, ZipEntryError>)
    ensures
        match r {
            Ok(s) => sjis_by_suffix(zip@, suffix@) == Ok::<Seq<char>, ZipEntryFault>(s@),
            Err(e) => sjis_by_suffix(zip@, suffix@) == Err::<Seq<char>, ZipEntryFault>(e@),
        },
{
    match read_zip_entry_bytes(zip, suffix) {
        Ok(bytes) => Ok(decode_sjis(bytes.as_slice())),
        Err(e) => Err(e),
    }
}

proof fn lemma_hits_are_a_filter(
    names: Seq<Seq<char>>,
    hits: Seq<bool>,
    keep: spec_fn(Seq<char>) -> bool,
)
    requires
        hits.len() == names.len(),
        forall|i: int| #![trigger names[i]] 0 <= i < names.len() ==> hits[i] == keep(names[i]),
    ensures
        hit_names(names, hits) == names.filter(keep),
    decreases names.len(),
{
    reveal(Seq::filter);
    if names.len() > 0 {
        let rest = names.drop_last();
        assert(forall|i: int| #![trigger rest[i]] 0 <= i < rest.len() ==> rest[i] == names[i]);
        assert(hits[names.len() - 1] == keep(names[names.len() - 1]));
        lemma_hits_are_a_filter(rest, hits.drop_last(), keep);
    } else {
        assert(names =~= Seq::<Seq<char>>::empty());
    }
}

/// A rule chooses the entries whose names end as it says, hold what it asks
/// for and do not hold what it rules out, in the order of the archive.
pub proof fn law_rules_go_by_names(rule: NameRule, names: Seq<Seq<char>>)
    ensures
        accepted(rule, names) == names.filter(
            |n: Seq<char>|
                text::has_suffix(n, rule.suffix@) && (rule.with is Some ==> text::has_part(
                    n,
                    rule.with->0@,
                )) && (rule.without is Some ==> !text::has_part(n, rule.without->0@)),
        ),
{
    lemma_hits_are_a_filter(
        names,
        Seq::new(names.len(), |i: int| rule.accepts(names[i])),
        |n: Seq<char>|
            text::has_suffix(n, rule.suffix@) && (rule.with is Some ==> text::has_part(
                n,
                rule.with->0@,
            )) && (rule.without is Some ==> !text::has_part(n, rule.without->0@)),
    );
}

/// What is read from an archive is the content of the one entry whose name ends
/// as it should. Without such an entry, and with several, nothing is read.
pub proof fn law_the_one_entry_is_read(zip: Seq<u8>, suffix: Seq<char>, names: Seq<Seq<char>>)
    requires
        zip_names(zip) == Ok::<Seq<Seq<char>>, (bool, Seq<char>)>(names),
    ensures
        ({
            let own = names.filter(|n: Seq<char>| text::has_suffix(n, suffix));
            &&& own.len() == 0 ==> entry_by_suffix(zip, suffix) == Err::<Seq<u8>, ZipEntryFault>(
                ZipEntryFault::NoMatch,
            )
            &&& own.len() > 1 ==> entry_by_suffix(zip, suffix) == Err::<Seq<u8>, ZipEntryFault>(
                ZipEntryFault::Several(own),
            )
            &&& own.len() == 1 && zip_entry(zip, own[0]) is Ok ==> entry_by_suffix(zip, suffix)
                == Ok::<Seq<u8>, ZipEntryFault>(zip_entry(zip, own[0])->Ok_0)
            &&& own.len() == 1 && zip_entry(zip, own[0]) is Ok ==> sjis_by_suffix(zip, suffix)
                == Ok::<Seq<char>, ZipEntryFault>(sjis_text(zip_entry(zip, own[0])->Ok_0))
            &&& own.len() == 1 && zip_entry(zip, own[0]) is Err ==> entry_by_suffix(
                zip,
                suffix,
            ) is Err
        }),
{
    lemma_hits_are_a_filter(
        names,
        Seq::new(names.len(), |i: int| text::has_suffix(names[i], suffix)),
        |n: Seq<char>| text::has_suffix(n, suffix),
    );
}

/// The text that a rule leads to is that of the one entry that it chooses,
/// decoded as UTF-8; bytes that are not UTF-8 are refused.
pub proof fn law_the_one_text_is_read(zip: Seq<u8>, rule: NameRule, names: Seq<Seq<char>>)
    requires
        zip_names(zip) == Ok::<Seq<Seq<char>>, (bool, Seq<char>)>(names),
        accepted(rule, names).len() == 1,
        zip_entry(zip, accepted(rule, names)[0]) is Ok,
    ensures
        ({
            let bytes = zip_entry(zip, accepted(rule, names)[0])->Ok_0;
            &&& vstd::utf8::valid_utf8(bytes) ==> utf8_by_rule(zip, rule) == Ok::<
                Seq<char>,
                ZipTextFault,
            >(vstd::utf8::decode_utf8(bytes))
            &&& !vstd::utf8::valid_utf8(bytes) ==> utf8_by_rule(zip, rule) is Err
        }),
{
}

/// An archive that cannot be opened is no archive; one that can, with an entry
/// that cannot be read, says so of the entry.
pub proof fn law_broken_archives_are_told_apart(zip: Seq<u8>, suffix: Seq<char>, cause: Seq<char>)
    ensures
        zip_names(zip) == Err::<Seq<Seq<char>>, (bool, Seq<char>)>((false, cause))
            ==> entry_by_suffix(zip, suffix) == Err::<Seq<u8>, ZipEntryFault>(
            ZipEntryFault::NotZip(cause),
        ),
        zip_names(zip) == Err::<Seq<Seq<char>>, (bool, Seq<char>)>((true, cause))
            ==> entry_by_suffix(zip, suffix) == Err::<Seq<u8>, ZipEntryFault>(
            ZipEntryFault::Unreadable(cause),
        ),
{
}

} // verus!
