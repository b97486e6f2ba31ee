//! What the metadata beside a dataset says: its reference system and its date.
use crate::text;
use crate::text::{chars_of, quote, same_text, text_between, trim};
use crate::xml;
use crate::xml::{find_child, find_named, parse_xml, XmlNode, XmlView};
use vstd::prelude::*;

verus! {

// ---------------------------------------------------------------------------
// The reference system
// ---------------------------------------------------------------------------

/// Why the reference system could not be read.
#[derive(Debug, PartialEq)]
pub enum EpsgError {
    /// The text cannot be read, for that reason.
    NotXml(String),
    NoCode,
    /// A reference system other than those known.
    Unrecognized(String),
}

/// The view of an [`EpsgError`].
pub enum EpsgFault {
    NotXml(Seq<char>),
    NoCode,
    Unrecognized(Seq<char>),
}

impl View for EpsgError {
    type V = EpsgFault;

    open spec fn view(&self) -> EpsgFault {
        match self {
            EpsgError::NotXml(cause) => EpsgFault::NotXml(cause@),
            EpsgError::NoCode => EpsgFault::NoCode,
            EpsgError::Unrecognized(s) => EpsgFault::Unrecognized(s@),
        }
    }
}

impl EpsgFault {
    pub open spec fn spec_text(self) -> Seq<char> {
        match self {
            EpsgFault::NotXml(cause) => "failed to parse metadata XML: "@ + cause,
            EpsgFault::NoCode => "referenceSystemIdentifier/code not found in metadata XML"@,
            EpsgFault::Unrecognized(s) => {
                "unrecognized reference system identifier in metadata XML: "@ + text::quoted(s)
            },
        }
    }
}

impl EpsgError {
    pub fn to_string(&self) -> (text: String)
        ensures
            text@ == self@.spec_text(),
    {
        let mut text = String::new();
        match self {
            EpsgError::NotXml(cause) => {
                text.append("failed to parse metadata XML: ");
                text.append(cause.as_str());
            },
            EpsgError::NoCode => {
                text.append("referenceSystemIdentifier/code not found in metadata XML");
            },
            EpsgError::Unrecognized(s) => {
                text.append("unrecognized reference system identifier in metadata XML: ");
                text.append(quote(s.as_str()).as_str());
            },
        }
        text
    }
}

/// The EPSG code of a reference system by its name. Only two are known: a new
/// one must not be taken for another.
pub open spec fn epsg_by_name(name: Seq<char>) -> Result<u32, EpsgFault> {
    if name == "JGD2000 / (B, L)"@ {
        Ok(4612)
    } else if name == "JGD2011 / (B, L)"@ {
        Ok(6668)
    } else {
        Err(EpsgFault::Unrecognized(name))
    }
}

/// The text of a node that may be missing.
pub open spec fn text_at(nodes: Seq<XmlView>, at: Option<int>) -> Option<Seq<char>> {
    match at {
        Some(i) => if 0 <= i < nodes.len() {
            nodes[i].text
        } else {
            None
        },
        None => None,
    }
}

/// The code of the first reference system identifier in a document.
pub open spec fn reference_code(nodes: Seq<XmlView>) -> Option<Seq<char>> {
    match xml::first_named(nodes, "referenceSystemIdentifier"@) {
        Some(i) => text_at(nodes, xml::first_child(nodes, i, "code"@)),
        None => None,
    }
}

/// The EPSG code that a document names.
pub open spec fn epsg_in(nodes: Seq<XmlView>) -> Result<u32, EpsgFault> {
    match reference_code(nodes) {
        Some(code) => epsg_by_name(text::trimmed(code)),
        None => Err(EpsgFault::NoCode),
    }
}

/// The EPSG code that the nodes of a metadata document name.
pub fn extract_epsg_from_nodes(nodes: &Vec<XmlNode>) -> (r: Result<u32, EpsgError>)
    ensures
        match r {
            Ok(code) => epsg_in(xml::nodes_view(nodes@)) == Ok::<u32, EpsgFault>(code),
            Err(e) => epsg_in(xml::nodes_view(nodes@)) == Err::<u32, EpsgFault>(e@),
        },
{
    let at: usize = match find_named(nodes, "referenceSystemIdentifier", 0) {
        Some(i) => i,
        None => {
            return Err(EpsgError::NoCode);
        },
    };
    let code_at: usize = match find_child(nodes, at, "code") {
        Some(i) => i,
        None => {
            return Err(EpsgError::NoCode);
        },
    };
    assert(xml::nodes_view(nodes@)[code_at as int] == nodes@[code_at as int]@);
    let code = match &nodes[code_at].text {
        Some(t) => trim(t.as_str()),
        None => {
            return Err(EpsgError::NoCode);
        },
    };
    if same_text(code.as_str(), "JGD2000 / (B, L)") {
        Ok(4612)
    } else if same_text(code.as_str(), "JGD2011 / (B, L)") {
        Ok(6668)
    } else {
        Err(EpsgError::Unrecognized(code))
    }
}

/// The EPSG code that a metadata text names.
pub open spec fn epsg_in_text(text: Seq<char>) -> Result<u32, EpsgFault> {
    match xml::xml_nodes(text) {
        Ok(nodes) => epsg_in(nodes),
        Err(cause) => Err(EpsgFault::NotXml(cause)),
    }
}

/// Reads the EPSG code of the coordinates from the metadata of location
/// reference data.
pub fn extract_epsg_from_isj_metadata_xml(xml_text: &str) -> (r: Result<u32, EpsgError>)
    ensures
        match r {
            Ok(code) => epsg_in_text(xml_text@) == Ok::<u32, EpsgFault>(code),
            Err(e) => epsg_in_text(xml_text@) == Err::<u32, EpsgFault>(e@),
        },
{
    match parse_xml(xml_text) {
        Ok(nodes) => extract_epsg_from_nodes(&nodes),
        Err(cause) => Err(EpsgError::NotXml(cause)),
    }
}

// ---------------------------------------------------------------------------
// The date of the data
// ---------------------------------------------------------------------------

/// Why the date could not be read.
#[derive(Debug, PartialEq)]
pub enum VintageError {
    /// The text cannot be read, for that reason.
    NotXml(String),
    NoTitle,
    /// The title is blank.
    NoIdentifier,
}

/// The view of a [`VintageError`].
pub enum VintageFault {
    NotXml(Seq<char>),
    NoTitle,
    NoIdentifier,
}

impl View for VintageError {
    type V = VintageFault;

    open spec fn view(&self) -> VintageFault {
        match self {
            VintageError::NotXml(cause) => VintageFault::NotXml(cause@),
            VintageError::NoTitle => VintageFault::NoTitle,
            VintageError::NoIdentifier => VintageFault::NoIdentifier,
        }
    }
}

impl VintageFault {
    pub open spec fn spec_text(self) -> Seq<char> {
        match self {
            VintageFault::NotXml(cause) => "メタデータXMLを読めません: "@ + cause,
            VintageFault::NoTitle => "メタデータXMLに title がありません"@,
            VintageFault::NoIdentifier => "title からデータセット識別子を取り出せません"@,
        }
    }
}

impl VintageError {
    pub fn to_string(&self) -> (text: String)
        ensures
            text@ == self@.spec_text(),
    {
        match self {
            VintageError::NotXml(cause) => {
                let mut text = "メタデータXMLを読めません: ".to_string();
                text.append(cause.as_str());
                text
            },
            VintageError::NoTitle => "メタデータXMLに title がありません".to_string(),
            VintageError::NoIdentifier => {
                "title からデータセット識別子を取り出せません".to_string()
            },
        }
    }
}

/// A space between the words of a title, wide or not.
pub open spec fn is_gap(c: char) -> bool {
    c == '\u{3000}' || c == ' '
}

/// `s` up to its last character that is no gap.
pub open spec fn without_end_gaps(s: Seq<char>) -> Seq<char>
    decreases s.len(),
{
    if s.len() > 0 && is_gap(s.last()) {
        without_end_gaps(s.drop_last())
    } else {
        s
    }
}

/// The characters behind the last gap.
pub open spec fn behind_last_gap(s: Seq<char>) -> Seq<char>
    decreases s.len(),
{
    if s.len() == 0 || is_gap(s.last()) {
        Seq::empty()
    } else {
        behind_last_gap(s.drop_last()).push(s.last())
    }
}

/// The last word of a title.
pub open spec fn last_word(s: Seq<char>) -> Option<Seq<char>> {
    let kept = without_end_gaps(s);
    if kept.len() == 0 {
        None
    } else {
        Some(behind_last_gap(kept))
    }
}

/// Finds the last word of a title.
pub fn find_last_word(title: &str) -> (word: Option<String>)
    ensures
        match word {
            Some(w) => last_word(title@) == Some(w@),
            None => last_word(title@) is None,
        },
{
    let chars = chars_of(title);
    let mut end: usize = chars.len();
    assert(chars@.take(end as int) == chars@);
    while end > 0 && (chars[end - 1] == '\u{3000}' || chars[end - 1] == ' ')
        invariant
            end <= chars@.len(),
            without_end_gaps(chars@) == without_end_gaps(chars@.take(end as int)),
        decreases end,
    {
        assert(chars@.take(end as int).drop_last() == chars@.take(end - 1));
        end = end - 1;
    }
    if end == 0 {
        return None;
    }
    let ghost kept = chars@.take(end as int);
    let mut from: usize = end;
    assert(kept.take(from as int) == kept);
    assert(kept.skip(from as int) == Seq::<char>::empty());
    while from > 0 && !(chars[from - 1] == '\u{3000}' || chars[from - 1] == ' ')
        invariant
            from <= end <= chars@.len(),
            kept == chars@.take(end as int),
            behind_last_gap(kept) == behind_last_gap(kept.take(from as int)) + kept.skip(
                from as int,
            ),
        decreases from,
    {
        proof {
            assert(kept.take(from as int).drop_last() == kept.take(from - 1));
            assert(kept.take(from as int).last() == chars@[from - 1]);
            assert(behind_last_gap(kept.take(from as int)) == behind_last_gap(
                kept.take(from - 1),
            ).push(chars@[from - 1]));
            assert(behind_last_gap(kept.take(from - 1)).push(chars@[from - 1]) + kept.skip(
                from as int,
            ) =~= behind_last_gap(kept.take(from - 1)) + kept.skip(from - 1));
        }
        from = from - 1;
    }
    let word = text_between(&chars, from, end);
    proof {
        assert(behind_last_gap(kept.take(from as int)) =~= Seq::<char>::empty());
        assert(word@ =~= kept.skip(from as int));
        assert(behind_last_gap(kept) =~= word@);
    }
    Some(word)
}

/// The first `date` from `from` on that has a `date` in it: its inner date.
pub open spec fn inner_date_from(nodes: Seq<XmlView>, from: int) -> Option<int>
    decreases nodes.len() - from,
{
    match xml::named_from(nodes, "date"@, from) {
        Some(i) => if from <= i < nodes.len() {
            match xml::first_child(nodes, i, "date"@) {
                Some(c) => Some(c),
                None => inner_date_from(nodes, i + 1),
            }
        } else {
            None
        },
        None => None,
    }
}

/// The date of a document, without the space around it.
pub open spec fn date_in(nodes: Seq<XmlView>) -> Option<Seq<char>> {
    match text_at(nodes, inner_date_from(nodes, 0)) {
        Some(t) => Some(text::trimmed(t)),
        None => None,
    }
}

/// The identifier in the title of a document, with its date where it has one,
/// as the publisher names it: `N02-25 (2026-03-06)`.
pub open spec fn vintage_in(nodes: Seq<XmlView>) -> Result<Seq<char>, VintageFault> {
    match text_at(nodes, xml::first_named(nodes, "title"@)) {
        None => Err(VintageFault::NoTitle),
        Some(title) => match last_word(text::trimmed(title)) {
            None => Err(VintageFault::NoIdentifier),
            Some(identifier) => Ok(
                match date_in(nodes) {
                    Some(date) => identifier + " ("@ + date + ")"@,
                    None => identifier,
                },
            ),
        },
    }
}

fn find_inner_date(nodes: &Vec<XmlNode>) -> (r: Option<usize>)
    ensures
        match r {
            Some(i) => i < nodes@.len() && inner_date_from(xml::nodes_view(nodes@), 0) == Some(
                i as int,
            ),
            None => inner_date_from(xml::nodes_view(nodes@), 0) is None,
        },
{
    let ghost all = xml::nodes_view(nodes@);
    let mut from: usize = 0;
    while from < nodes.len()
        invariant
            from <= nodes@.len(),
            all == xml::nodes_view(nodes@),
            inner_date_from(all, 0) == inner_date_from(all, from as int),
        decreases nodes@.len() - from,
    {
        match find_named(nodes, "date", from) {
            Some(i) => {
                match find_child(nodes, i, "date") {
                    Some(c) => {
                        return Some(c);
                    },
                    None => {
                        from = i + 1;
                    },
                }
            },
            None => {
                return None;
            },
        }
    }
    None
}

/// The date of the data that the nodes of a metadata document name.
pub fn extract_vintage_from_nodes(nodes: &Vec<XmlNode>) -> (r: Result<String, VintageError>)
    ensures
        match r {
            Ok(s) => vintage_in(xml::nodes_view(nodes@)) == Ok::<Seq<char>, VintageFault>(s@),
            Err(e) => vintage_in(xml::nodes_view(nodes@)) == Err::<Seq<char>, VintageFault>(e@),
        },
{
    let ghost all = xml::nodes_view(nodes@);
    let title_at: usize = match find_named(nodes, "title", 0) {
        Some(i) => i,
        None => {
            return Err(VintageError::NoTitle);
        },
    };
    assert(all[title_at as int] == nodes@[title_at as int]@);
    let title = match &nodes[title_at].text {
        Some(t) => trim(t.as_str()),
        None => {
            return Err(VintageError::NoTitle);
        },
    };
    let identifier = match find_last_word(title.as_str()) {
        Some(w) => w,
        None => {
            return Err(VintageError::NoIdentifier);
        },
    };
    let date = match find_inner_date(nodes) {
        Some(i) => {
            assert(all[i as int] == nodes@[i as int]@);
            match &nodes[i].text {
                Some(t) => Some(trim(t.as_str())),
                None => None,
            }
        },
        None => None,
    };
    let mut out = identifier;
    match date {
        Some(d) => {
            out.append(" (");
            out.append(d.as_str());
            out.append(")");
        },
        None => {},
    }
    Ok(out)
}

/// The date of the data that a metadata text names.
pub open spec fn vintage_in_text(text: Seq<char>) -> Result<Seq<char>, VintageFault> {
    match xml::xml_nodes(text) {
        Ok(nodes) => vintage_in(nodes),
        Err(cause) => Err(VintageFault::NotXml(cause)),
    }
}

/// Reads the date of the data from its metadata.
pub fn extract_vintage(xml_text: &str) -> (r: Result<String, VintageError>)
    ensures
        match r {
            Ok(s) => vintage_in_text(xml_text@) == Ok::<Seq<char>, VintageFault>(s@),
            Err(e) => vintage_in_text(xml_text@) == Err::<Seq<char>, VintageFault>(e@),
        },
{
    match parse_xml(xml_text) {
        Ok(nodes) => extract_vintage_from_nodes(&nodes),
        Err(cause) => Err(VintageError::NotXml(cause)),
    }
}

/// The reference system is the one that the `code` in the first
/// `referenceSystemIdentifier` names: JGD2000 is EPSG 4612, JGD2011 is EPSG 6668,
/// and any other name is refused.
pub proof fn law_systems_go_by_their_code(nodes: Seq<XmlView>, at: int, c: int, code: Seq<char>)
    requires
        0 <= at < nodes.len(),
        nodes[at].name == "referenceSystemIdentifier"@,
        forall|j: int|
            #![trigger nodes[j]]
            0 <= j < at ==> nodes[j].name != "referenceSystemIdentifier"@,
        0 <= c < nodes.len(),
        xml::is_child(nodes, at, "code"@, c),
        forall|j: int|
            #![trigger nodes[j]]
            0 <= j < c ==> !xml::is_child(nodes, at, "code"@, j),
        nodes[c].text == Some(code),
    ensures
        text::trimmed(code) == "JGD2000 / (B, L)"@ <==> epsg_in(nodes) == Ok::<u32, EpsgFault>(
            4612,
        ),
        text::trimmed(code) == "JGD2011 / (B, L)"@ <==> epsg_in(nodes) == Ok::<u32, EpsgFault>(
            6668,
        ),
        text::trimmed(code) != "JGD2000 / (B, L)"@ && text::trimmed(code) != "JGD2011 / (B, L)"@
            ==> epsg_in(nodes) is Err,
{
    xml::law_the_first_node_of_a_name_is_found(nodes, "referenceSystemIdentifier"@, 0, at);
    xml::law_the_first_child_of_a_name_is_found(nodes, at, "code"@, c);
    reveal_strlit("JGD2000 / (B, L)");
    reveal_strlit("JGD2011 / (B, L)");
    assert("JGD2000 / (B, L)"@[5] == '0' && "JGD2011 / (B, L)"@[5] == '1');
}

proof fn lemma_end_gaps(s: Seq<char>, gaps: Seq<char>)
    requires
        forall|i: int| #![trigger gaps[i]] 0 <= i < gaps.len() ==> is_gap(gaps[i]),
        s.len() > 0 && !is_gap(s.last()),
    ensures
        without_end_gaps(s + gaps) == s,
    decreases gaps.len(),
{
    if gaps.len() == 0 {
        assert(s + gaps =~= s);
    } else {
        assert(is_gap(gaps[gaps.len() - 1]));
        assert((s + gaps).last() == gaps.last());
        assert((s + gaps).drop_last() =~= s + gaps.drop_last());
        let rest = gaps.drop_last();
        assert(forall|i: int| #![trigger rest[i]] 0 <= i < rest.len() ==> rest[i] == gaps[i]);
        lemma_end_gaps(s, rest);
    }
}

proof fn lemma_behind_gap(before: Seq<char>, word: Seq<char>)
    requires
        before.len() == 0 || is_gap(before.last()),
        forall|i: int| #![trigger word[i]] 0 <= i < word.len() ==> !is_gap(word[i]),
    ensures
        behind_last_gap(before + word) == word,
    decreases word.len(),
{
    if word.len() == 0 {
        assert(before + word =~= before);
        assert(behind_last_gap(before + word) =~= word);
    } else {
        assert(!is_gap(word[word.len() - 1]));
        assert((before + word).last() == word.last());
        assert((before + word).drop_last() =~= before + word.drop_last());
        let rest = word.drop_last();
        assert(forall|i: int| #![trigger rest[i]] 0 <= i < rest.len() ==> rest[i] == word[i]);
        lemma_behind_gap(before, rest);
        assert(rest.push(word.last()) =~= word);
    }
}

/// The last word of a title is what stands behind its last blank, wide or not;
/// blanks at the end do not count.
pub proof fn law_the_last_word_is_found(before: Seq<char>, word: Seq<char>, gaps: Seq<char>)
    requires
        before.len() == 0 || before.last() == ' ' || before.last() == '\u{3000}',
        word.len() > 0,
        forall|i: int|
            #![trigger word[i]]
            0 <= i < word.len() ==> word[i] != ' ' && word[i] != '\u{3000}',
        forall|i: int|
            #![trigger gaps[i]]
            0 <= i < gaps.len() ==> gaps[i] == ' ' || gaps[i] == '\u{3000}',
    ensures
        last_word(before + word + gaps) == Some(word),
{
    let s = before + word;
    assert(!is_gap(word[word.len() - 1]));
    assert(s.last() == word.last());
    lemma_end_gaps(s, gaps);
    lemma_behind_gap(before, word);
}

/// The vintage is the last word of the first title, with the date of the
/// document behind it in brackets where there is one.
pub proof fn law_vintages_name_identifier_and_date(
    nodes: Seq<XmlView>,
    at: int,
    title: Seq<char>,
    identifier: Seq<char>,
)
    requires
        0 <= at < nodes.len(),
        nodes[at].name == "title"@,
        forall|j: int| #![trigger nodes[j]] 0 <= j < at ==> nodes[j].name != "title"@,
        nodes[at].text == Some(title),
        last_word(text::trimmed(title)) == Some(identifier),
    ensures
        date_in(nodes) is None ==> vintage_in(nodes) == Ok::<Seq<char>, VintageFault>(identifier),
        date_in(nodes) is Some ==> vintage_in(nodes) == Ok::<Seq<char>, VintageFault>(
            identifier + " ("@ + date_in(nodes)->0 + ")"@,
        ),
{
    xml::law_the_first_node_of_a_name_is_found(nodes, "title"@, 0, at);
}

proof fn lemma_inner_date(nodes: Seq<XmlView>, from: int, i: int, c: int)
    requires
        0 <= from <= i < nodes.len(),
        nodes[i].name == "date"@,
        xml::first_child(nodes, i, "date"@) == Some(c),
        forall|j: int|
            #![trigger nodes[j]]
            from <= j < i && nodes[j].name == "date"@ ==> xml::first_child(nodes, j, "date"@) is None,
    ensures
        inner_date_from(nodes, from) == Some(c),
    decreases nodes.len() - from,
{
    let next = xml::named_from(nodes, "date"@, from);
    xml::law_the_first_node_of_a_name_is_found(nodes, "date"@, from, i);
    assert(next is Some);
    let k = next->0;
    xml::law_the_first_node_of_a_name_is_found(nodes, "date"@, from, k);
    assert(nodes[k].name == "date"@);
    if k < i {
        lemma_inner_date(nodes, k + 1, i, c);
    }
}

/// The date of a document is the text of the first `date` that stands in a
/// `date`, without the space around it.
pub proof fn law_dates_stand_in_dates(nodes: Seq<XmlView>, i: int, c: int, date: Seq<char>)
    requires
        0 <= i < nodes.len(),
        nodes[i].name == "date"@,
        0 <= c < nodes.len(),
        xml::first_child(nodes, i, "date"@) == Some(c),
        forall|j: int|
            #![trigger nodes[j]]
            0 <= j < i && nodes[j].name == "date"@ ==> xml::first_child(nodes, j, "date"@) is None,
        nodes[c].text == Some(date),
    ensures
        date_in(nodes) == Some(text::trimmed(date)),
{
    lemma_inner_date(nodes, 0, i, c);
}

/// Metadata without a title, and a title without a word, are refused for that.
pub proof fn law_vintages_need_a_title(nodes: Seq<XmlView>)
    ensures
        (forall|j: int|
            #![trigger nodes[j]]
            0 <= j < nodes.len() ==> nodes[j].name != "title"@) ==> vintage_in(nodes) == Err::<
            Seq<char>,
            VintageFault,
        >(VintageFault::NoTitle),
        (forall|j: int|
            #![trigger nodes[j]]
            0 <= j < nodes.len() ==> nodes[j].name != "referenceSystemIdentifier"@) ==> epsg_in(
            nodes,
        ) == Err::<u32, EpsgFault>(EpsgFault::NoCode),
        last_word(Seq::empty()) is None,
{
    xml::law_the_first_node_of_a_name_is_found(nodes, "title"@, 0, 0);
    xml::law_the_first_node_of_a_name_is_found(nodes, "referenceSystemIdentifier"@, 0, 0);
}

} // verus!
