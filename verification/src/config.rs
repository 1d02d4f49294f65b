//! The configuration file: its format, and how its text becomes the outline
//! of a document.
//!
//! The file is read line by line. Each line, without its surrounding
//! whitespace, is looked at for one of these forms:
//!
//! ```text
//! preamble: <file>         the preamble (several lines are joined)
//! class: <name>            the document class
//! chapter: <name>          a chapter starts before the next file
//! section: <name>          a section starts before the next file
//! file: <file>             the next file of the document
//! handle_sections: true    whether section commands are written
//! handle_subsections: true whether subsection counters are written
//! bib_style: <style>       the bibliography style
//! bibliography: <file>     the bibliography file
//! # ...                    a comment
//! ```
//!
//! Any other line is ignored.
use vstd::prelude::*;
use vstd::string::*;

use crate::text::{begins_with, begins_with_at, chars_of, lines, next_line, same_text, trim, trim_bounds, first_index_of, lemma_first_index_of_bounds};
use crate::text::{bool_string, bool_text, decimal, decimal_usize};
use crate::utils::print::{
    debug_items,
    i32_items,
    i32_list,
    list_text,
    string_list,
    texts,
    usize_items,
    usize_list,
};

verus! {

/// The configuration file that is read when no other is named.
pub const DEFAULT_CONFIG: &'static str = "trex.conf";

/// The configuration that is used when the configuration file cannot be read.
pub const MINIMAL_CONFIG: &'static str = "preamble: preamble.tex\nsection: Section Label\nfile: file-1.tex";

pub const PREAMBLE_KEY: &'static str = "preamble: ";

pub const CLASS_KEY: &'static str = "class: ";

pub const HANDLE_SUBSECTIONS_KEY: &'static str = "handle_subsections: ";

pub const HANDLE_SECTIONS_KEY: &'static str = "handle_sections: ";

pub const SECTION_KEY: &'static str = "section: ";

pub const CHAPTER_KEY: &'static str = "chapter: ";

pub const FILE_KEY: &'static str = "file: ";

pub const BIB_STYLE_KEY: &'static str = "bib_style: ";

pub const BIB_FILE_KEY: &'static str = "bibliography: ";

pub const COMMENT_KEY: &'static str = "#";

/// The text that switches an option on.
pub const TRUE_TEXT: &'static str = "true";

/// The outline of a document, as the configuration file describes it.
///
/// The lists that are indexed by file are as follows. `files[i]` is the i-th
/// file. `chapter_indices[i]` is the number of the chapter that the file is
/// in, and `section_indices[i]` the number of its section within that
/// chapter; `subsection_indices[i]` counts the files before it in its
/// section. `chapter_positions[i]` is 1 where a chapter starts right before
/// file `i` and 0 elsewhere, and `chapter_names[i]` is the name of the
/// chapter of file `i`; the same holds of `section_positions` and
/// `section_names`. These four lists have one entry more than `files`.
#[derive(Debug)]
pub struct Outline {
    pub files: Vec<String>,
    pub preamble: String,
    pub class: String,
    pub handle_chapters: bool,
    pub handle_sections: bool,
    pub handle_subsections: bool,
    pub chapter_positions: Vec<usize>,
    pub chapter_names: Vec<String>,
    pub chapter_indices: Vec<i32>,
    pub section_positions: Vec<usize>,
    pub section_names: Vec<String>,
    pub section_indices: Vec<i32>,
    pub subsection_indices: Vec<i32>,
    pub bib_style: String,
    pub bib_file: String,
}

/// The contents of an `Outline`, with each text as its characters.
pub struct OutlineModel {
    pub files: Seq<Seq<char>>,
    pub preamble: Seq<char>,
    pub class: Seq<char>,
    pub handle_chapters: bool,
    pub handle_sections: bool,
    pub handle_subsections: bool,
    pub chapter_positions: Seq<usize>,
    pub chapter_names: Seq<Seq<char>>,
    pub chapter_indices: Seq<i32>,
    pub section_positions: Seq<usize>,
    pub section_names: Seq<Seq<char>>,
    pub section_indices: Seq<i32>,
    pub subsection_indices: Seq<i32>,
    pub bib_style: Seq<char>,
    pub bib_file: Seq<char>,
}

impl View for Outline {
    type V = OutlineModel;

    open spec fn view(&self) -> OutlineModel {
        OutlineModel {
            files: texts(self.files@),
            preamble: self.preamble@,
            class: self.class@,
            handle_chapters: self.handle_chapters,
            handle_sections: self.handle_sections,
            handle_subsections: self.handle_subsections,
            chapter_positions: self.chapter_positions@,
            chapter_names: texts(self.chapter_names@),
            chapter_indices: self.chapter_indices@,
            section_positions: self.section_positions@,
            section_names: texts(self.section_names@),
            section_indices: self.section_indices@,
            subsection_indices: self.subsection_indices@,
            bib_style: self.bib_style@,
            bib_file: self.bib_file@,
        }
    }
}

/// The outline with no files and every option at its default.
pub open spec fn empty_outline() -> OutlineModel {
    OutlineModel {
        files: Seq::empty(),
        preamble: Seq::empty(),
        class: Seq::empty(),
        handle_chapters: true,
        handle_sections: true,
        handle_subsections: false,
        chapter_positions: Seq::empty(),
        chapter_names: Seq::empty(),
        chapter_indices: Seq::empty(),
        section_positions: Seq::empty(),
        section_names: Seq::empty(),
        section_indices: Seq::empty(),
        subsection_indices: Seq::empty(),
        bib_style: Seq::empty(),
        bib_file: Seq::empty(),
    }
}

impl Outline {
    /// An outline with no files and every option at its default.
    pub fn new() -> (o: Outline)
        ensures
            o@ == empty_outline(),
    {
        let o = Outline {
            files: Vec::new(),
            preamble: String::new(),
            class: String::new(),
            handle_chapters: true,
            handle_sections: true,
            handle_subsections: false,
            chapter_positions: Vec::new(),
            chapter_names: Vec::new(),
            chapter_indices: Vec::new(),
            section_positions: Vec::new(),
            section_names: Vec::new(),
            section_indices: Vec::new(),
            subsection_indices: Vec::new(),
            bib_style: String::new(),
            bib_file: String::new(),
        };
        assert(o@.files =~= Seq::<Seq<char>>::empty());
        assert(o@.chapter_names =~= Seq::<Seq<char>>::empty());
        assert(o@.section_names =~= Seq::<Seq<char>>::empty());
        o
    }

    /// The preamble, where one is given.
    pub fn get_preamble(&self) -> (r: Option<&String>)
        ensures
            match r {
                Some(p) => p@ == self.preamble@ && self.preamble@.len() > 0,
                None => self.preamble@.len() == 0,
            },
    {
        if self.preamble.unicode_len() > 0 {
            Some(&self.preamble)
        } else {
            None
        }
    }

    /// The file at `index`, where there is one.
    pub fn get_lecture(&self, index: usize) -> (r: Option<&String>)
        ensures
            match r {
                Some(f) => index < self.files@.len() && f@ == self.files@[index as int]@,
                None => index >= self.files@.len(),
            },
    {
        if index < self.files.len() {
            Some(&self.files[index])
        } else {
            None
        }
    }

    /// Whether subsection counters are written.
    pub fn handle_subsections(&self) -> (r: bool)
        ensures
            r == self.handle_subsections,
    {
        self.handle_subsections
    }

    /// The outline as the verbose mode shows it (see `outline_description`).
    pub fn describe(&self) -> (d: String)
        ensures
            d@ == outline_description(self@),
    {
        let mut d = "preamble: ".to_owned();
        d.append(self.preamble.as_str());
        d.append("\nNumber of Sections: ");
        d.append(decimal_usize(self.section_positions.len()).as_str());
        d.append("\nhandle_subsections: ");
        d.append(bool_string(self.handle_subsections).as_str());
        d.append("\n\nchapter positions: ");
        d.append(usize_list(&self.chapter_positions).as_str());
        d.append("\nchapter names: ");
        d.append(string_list(&self.chapter_names).as_str());
        d.append("\nchapter indices: ");
        d.append(i32_list(&self.chapter_indices).as_str());
        d.append("\nsection positions: ");
        d.append(usize_list(&self.section_positions).as_str());
        d.append("\nsection names: ");
        d.append(string_list(&self.section_names).as_str());
        d.append("\nsection indices: ");
        d.append(i32_list(&self.section_indices).as_str());
        d.append("\nsubsection indices: ");
        d.append(i32_list(&self.subsection_indices).as_str());
        d
    }
}

/// What the verbose mode shows of an outline: the preamble, the number of
/// section positions, whether subsections are handled, and then each list of
/// positions, names and indices as `{:?}` writes it.
pub open spec fn outline_description(o: OutlineModel) -> Seq<char> {
    "preamble: "@ + o.preamble + "\nNumber of Sections: "@ + decimal(o.section_positions.len() as int)
        + "\nhandle_subsections: "@ + bool_text(o.handle_subsections) + "\n\nchapter positions: "@
        + list_text(usize_items(o.chapter_positions)) + "\nchapter names: "@ + list_text(
        debug_items(o.chapter_names),
    ) + "\nchapter indices: "@ + list_text(i32_items(o.chapter_indices)) + "\nsection positions: "@
        + list_text(usize_items(o.section_positions)) + "\nsection names: "@ + list_text(
        debug_items(o.section_names),
    ) + "\nsection indices: "@ + list_text(i32_items(o.section_indices))
        + "\nsubsection indices: "@ + list_text(i32_items(o.subsection_indices))
}

// ---------------------------------------------------------------------------
// The meaning of a configuration text
// ---------------------------------------------------------------------------

/// What has been read of a configuration so far: the outline, and the
/// counters and names that the next file will be given.
pub struct ConfigState {
    pub outline: OutlineModel,
    pub file_counter: nat,
    pub chapter_counter: int,
    pub section_counter: int,
    pub subsection_counter: int,
    pub last_chapter: Seq<char>,
    pub last_section: Seq<char>,
}

/// The state before the first line: an empty outline whose chapter and
/// section lists hold one unnamed entry, to be filled by a heading before
/// the first file.
pub open spec fn initial_state() -> ConfigState {
    ConfigState {
        outline: OutlineModel {
            chapter_positions: seq![0usize],
            chapter_names: seq![Seq::empty()],
            section_positions: seq![0usize],
            section_names: seq![Seq::empty()],
            ..empty_outline()
        },
        file_counter: 0,
        chapter_counter: 0,
        section_counter: 0,
        subsection_counter: 0,
        last_chapter: Seq::empty(),
        last_section: Seq::empty(),
    }
}

/// The state after reading the (trimmed) line `line` in state `st`.
pub open spec fn step(st: ConfigState, line: Seq<char>) -> ConfigState {
    let o = st.outline;
    if begins_with(line, PREAMBLE_KEY@) {
        let arg = line.skip(PREAMBLE_KEY@.len() as int);
        ConfigState { outline: OutlineModel { preamble: o.preamble + arg, ..o }, ..st }
    } else if begins_with(line, SECTION_KEY@) {
        let arg = line.skip(SECTION_KEY@.len() as int);
        ConfigState {
            outline: OutlineModel {
                section_names: o.section_names.update(st.file_counter as int, arg),
                section_positions: o.section_positions.update(st.file_counter as int, 1usize),
                ..o
            },
            last_section: arg,
            section_counter: st.section_counter + 1,
            subsection_counter: 0,
            ..st
        }
    } else if begins_with(line, CHAPTER_KEY@) {
        let arg = line.skip(CHAPTER_KEY@.len() as int);
        ConfigState {
            outline: OutlineModel {
                chapter_names: o.chapter_names.update(st.file_counter as int, arg),
                chapter_positions: o.chapter_positions.update(st.file_counter as int, 1usize),
                ..o
            },
            last_chapter: arg,
            chapter_counter: st.chapter_counter + 1,
            section_counter: 0,
            subsection_counter: 0,
            ..st
        }
    } else if begins_with(line, FILE_KEY@) {
        let arg = line.skip(FILE_KEY@.len() as int);
        ConfigState {
            outline: OutlineModel {
                files: o.files.push(arg),
                chapter_positions: o.chapter_positions.push(0usize),
                section_positions: o.section_positions.push(0usize),
                chapter_names: o.chapter_names.push(st.last_chapter),
                section_names: o.section_names.push(st.last_section),
                chapter_indices: o.chapter_indices.push(st.chapter_counter as i32),
                section_indices: o.section_indices.push(st.section_counter as i32),
                subsection_indices: o.subsection_indices.push(st.subsection_counter as i32),
                ..o
            },
            subsection_counter: st.subsection_counter + 1,
            file_counter: st.file_counter + 1,
            ..st
        }
    } else if begins_with(line, CLASS_KEY@) {
        let arg = line.skip(CLASS_KEY@.len() as int);
        ConfigState { outline: OutlineModel { class: arg, ..o }, ..st }
    } else if begins_with(line, HANDLE_SUBSECTIONS_KEY@) {
        let arg = line.skip(HANDLE_SUBSECTIONS_KEY@.len() as int);
        ConfigState { outline: OutlineModel { handle_subsections: arg == TRUE_TEXT@, ..o }, ..st }
    } else if begins_with(line, COMMENT_KEY@) {
        st
    } else if begins_with(line, HANDLE_SECTIONS_KEY@) {
        let arg = line.skip(HANDLE_SECTIONS_KEY@.len() as int);
        ConfigState { outline: OutlineModel { handle_sections: arg == TRUE_TEXT@, ..o }, ..st }
    } else if begins_with(line, BIB_STYLE_KEY@) {
        let arg = line.skip(BIB_STYLE_KEY@.len() as int);
        ConfigState { outline: OutlineModel { bib_style: arg, ..o }, ..st }
    } else if begins_with(line, BIB_FILE_KEY@) {
        let arg = line.skip(BIB_FILE_KEY@.len() as int);
        ConfigState { outline: OutlineModel { bib_file: arg, ..o }, ..st }
    } else {
        st
    }
}

/// The state after reading the lines `ls`, each trimmed, from the start.
pub open spec fn read_lines(ls: Seq<Seq<char>>) -> ConfigState
    decreases ls.len(),
{
    if ls.len() == 0 {
        initial_state()
    } else {
        step(read_lines(ls.drop_last()), trim(ls.last()))
    }
}

/// The outline that the configuration text `content` describes.
pub open spec fn parse_config(content: Seq<char>) -> OutlineModel {
    read_lines(lines(content)).outline
}

/// The counters of `st` fit in an `i32`.
pub open spec fn counters_fit(st: ConfigState) -> bool {
    &&& st.chapter_counter <= i32::MAX
    &&& st.section_counter <= i32::MAX
    &&& st.subsection_counter <= i32::MAX
}

/// Reading `content` never takes a counter past `i32::MAX`: no more chapters
/// than that, no more sections in one chapter, no more files in one section.
pub open spec fn config_fits(content: Seq<char>) -> bool {
    forall|k: int|
        0 <= k <= lines(content).len() ==> counters_fit(
            #[trigger] read_lines(lines(content).take(k)),
        )
}

// ---------------------------------------------------------------------------
// Reading a configuration text
// ---------------------------------------------------------------------------

/// The state that the reading loop holds, seen as a `ConfigState`.
pub open spec fn state_of(
    o: OutlineModel,
    file_counter: usize,
    chapter_counter: i32,
    section_counter: i32,
    subsection_counter: i32,
    last_chapter: Seq<char>,
    last_section: Seq<char>,
) -> ConfigState {
    ConfigState {
        outline: o,
        file_counter: file_counter as nat,
        chapter_counter: chapter_counter as int,
        section_counter: section_counter as int,
        subsection_counter: subsection_counter as int,
        last_chapter,
        last_section,
    }
}

/// The lists of `st` have the lengths that the file counter gives them.
pub open spec fn shaped(st: ConfigState) -> bool {
    let o = st.outline;
    &&& o.chapter_positions.len() == st.file_counter + 1
    &&& o.chapter_names.len() == st.file_counter + 1
    &&& o.section_positions.len() == st.file_counter + 1
    &&& o.section_names.len() == st.file_counter + 1
    &&& o.files.len() == st.file_counter
    &&& o.chapter_indices.len() == st.file_counter
    &&& o.section_indices.len() == st.file_counter
    &&& o.subsection_indices.len() == st.file_counter
    &&& st.chapter_counter >= 0
    &&& st.section_counter >= 0
    &&& st.subsection_counter >= 0
}

proof fn lemma_step_shaped(st: ConfigState, line: Seq<char>)
    requires
        shaped(st),
    ensures
        shaped(step(st, line)),
{
}

/// Every state reached while reading is shaped, and its counters are at
/// most the number of lines read.
pub proof fn lemma_read_lines_shaped(ls: Seq<Seq<char>>)
    ensures
        shaped(read_lines(ls)),
        read_lines(ls).chapter_counter <= ls.len(),
        read_lines(ls).section_counter <= ls.len(),
        read_lines(ls).subsection_counter <= ls.len(),
        read_lines(ls).file_counter <= ls.len(),
    decreases ls.len(),
{
    if ls.len() > 0 {
        lemma_read_lines_shaped(ls.drop_last());
        lemma_step_shaped(read_lines(ls.drop_last()), trim(ls.last()));
    }
}

proof fn lemma_lines_len(s: Seq<char>)
    ensures
        lines(s).len() <= s.len(),
    decreases s.len(),
{
    if s.len() > 0 {
        let k = first_index_of(s, '\n');
        lemma_first_index_of_bounds(s, '\n');
        if k < s.len() {
            lemma_lines_len(s.skip(k + 1));
        }
    }
}

/// A configuration text of fewer than `i32::MAX` characters never takes a
/// counter past `i32::MAX`.
pub proof fn lemma_short_config_fits(content: Seq<char>)
    requires
        content.len() <= i32::MAX,
    ensures
        config_fits(content),
{
    lemma_lines_len(content);
    assert forall|k: int| 0 <= k <= lines(content).len() implies counters_fit(
        #[trigger] read_lines(lines(content).take(k)),
    ) by {
        lemma_read_lines_shaped(lines(content).take(k));
    }
}

/// Reads the configuration text `content` into an outline.
pub fn parse(content: &String) -> (r: Option<Outline>)
    requires
        config_fits(content@),
    ensures
        r is Some,
        r matches Some(o) ==> o@ == parse_config(content@),
{
    let cs = chars_of(content.as_str());
    let n = cs.len();
    let mut outline = Outline::new();
    let mut file_counter: usize = 0;
    let mut chapter_counter: i32 = 0;
    let mut section_counter: i32 = 0;
    let mut subsection_counter: i32 = 0;
    let mut last_chapter_name = String::new();
    let mut last_section_name = String::new();

    outline.chapter_positions.push(0);
    outline.chapter_names.push(String::new());
    outline.section_positions.push(0);
    outline.section_names.push(String::new());

    let ghost all = lines(content@);
    let ghost mut j: int = 0;
    proof {
        assert(cs@.skip(0) =~= cs@);
        assert(all.skip(0) =~= all);
        assert(all.take(0) =~= Seq::<Seq<char>>::empty());
        assert(outline@.chapter_names =~= seq![Seq::<char>::empty()]);
        assert(outline@.section_names =~= seq![Seq::<char>::empty()]);
        assert(outline@ =~= initial_state().outline);
        lemma_read_lines_shaped(all.take(0));
    }
    let mut pos: usize = 0;
    while pos < n
        invariant
            n == cs@.len(),
            cs@ == content@,
            all == lines(content@),
            config_fits(content@),
            pos <= n,
            0 <= j <= all.len(),
            lines(cs@.skip(pos as int)) == all.skip(j),
            state_of(
                outline@,
                file_counter,
                chapter_counter,
                section_counter,
                subsection_counter,
                last_chapter_name@,
                last_section_name@,
            ) == read_lines(all.take(j)),
            shaped(read_lines(all.take(j))),
        decreases n - pos,
    {
        let (line_end, next) = next_line(&cs, pos);
        let (a, b) = trim_bounds(&cs, pos, line_end);
        let ghost st = read_lines(all.take(j));
        let ghost line = trim(all[j]);
        proof {
            assert(lines(cs@.skip(pos as int)).len() >= 1);
            assert(j < all.len());
            assert(all.skip(j)[0] == all[j]);
            assert(all[j] == cs@.subrange(pos as int, line_end as int));
            assert(all.skip(j + 1) =~= all.skip(j).drop_first());
            assert(all.take(j + 1).drop_last() =~= all.take(j));
            assert(all.take(j + 1).last() == all[j]);
            assert(line == cs@.subrange(a as int, b as int));
            assert(read_lines(all.take(j + 1)) == step(st, line));
            lemma_read_lines_shaped(all.take(j + 1));
            assert(counters_fit(read_lines(all.take(j + 1))));
        }
        let text = content.as_str();
        if begins_with_at(&cs, a, b, PREAMBLE_KEY) {
            let k = PREAMBLE_KEY.unicode_len();
            let arg = text.substring_char(a + k, b);
            assert(arg@ =~= line.skip(k as int));
            outline.preamble.append(arg);
        } else if begins_with_at(&cs, a, b, SECTION_KEY) {
            let k = SECTION_KEY.unicode_len();
            let arg = text.substring_char(a + k, b).to_owned();
            assert(arg@ =~= line.skip(k as int));
            outline.section_names.set(file_counter, arg.clone());
            outline.section_positions.set(file_counter, 1);
            last_section_name = arg;
            section_counter += 1;
            subsection_counter = 0;
            proof {
                assert(outline@.section_names =~= st.outline.section_names.update(
                    st.file_counter as int,
                    line.skip(k as int),
                ));
            }
        } else if begins_with_at(&cs, a, b, CHAPTER_KEY) {
            let k = CHAPTER_KEY.unicode_len();
            let arg = text.substring_char(a + k, b).to_owned();
            assert(arg@ =~= line.skip(k as int));
            outline.chapter_names.set(file_counter, arg.clone());
            outline.chapter_positions.set(file_counter, 1);
            last_chapter_name = arg;
            chapter_counter += 1;
            section_counter = 0;
            subsection_counter = 0;
            proof {
                assert(outline@.chapter_names =~= st.outline.chapter_names.update(
                    st.file_counter as int,
                    line.skip(k as int),
                ));
            }
        } else if begins_with_at(&cs, a, b, FILE_KEY) {
            let k = FILE_KEY.unicode_len();
            let arg = text.substring_char(a + k, b).to_owned();
            assert(arg@ =~= line.skip(k as int));
            let ghost before = outline@;
            outline.files.push(arg);
            outline.chapter_positions.push(0);
            outline.section_positions.push(0);
            outline.chapter_names.push(last_chapter_name.clone());
            outline.section_names.push(last_section_name.clone());
            outline.chapter_indices.push(chapter_counter);
            outline.section_indices.push(section_counter);
            outline.subsection_indices.push(subsection_counter);
            subsection_counter += 1;
            let len = outline.chapter_positions.len();
            assert(len == file_counter + 2);
            file_counter += 1;
            proof {
                assert(outline@.files =~= before.files.push(line.skip(k as int)));
                assert(outline@.chapter_names =~= before.chapter_names.push(st.last_chapter));
                assert(outline@.section_names =~= before.section_names.push(st.last_section));
            }
        } else if begins_with_at(&cs, a, b, CLASS_KEY) {
            let k = CLASS_KEY.unicode_len();
            let arg = text.substring_char(a + k, b).to_owned();
            assert(arg@ =~= line.skip(k as int));
            outline.class = arg;
        } else if begins_with_at(&cs, a, b, HANDLE_SUBSECTIONS_KEY) {
            let k = HANDLE_SUBSECTIONS_KEY.unicode_len();
            let arg = text.substring_char(a + k, b);
            assert(arg@ =~= line.skip(k as int));
            outline.handle_subsections = same_text(arg, TRUE_TEXT);
        } else if begins_with_at(&cs, a, b, COMMENT_KEY) {
        } else if begins_with_at(&cs, a, b, HANDLE_SECTIONS_KEY) {
            let k = HANDLE_SECTIONS_KEY.unicode_len();
            let arg = text.substring_char(a + k, b);
            assert(arg@ =~= line.skip(k as int));
            outline.handle_sections = same_text(arg, TRUE_TEXT);
        } else if begins_with_at(&cs, a, b, BIB_STYLE_KEY) {
            let k = BIB_STYLE_KEY.unicode_len();
            let arg = text.substring_char(a + k, b).to_owned();
            assert(arg@ =~= line.skip(k as int));
            outline.bib_style = arg;
        } else if begins_with_at(&cs, a, b, BIB_FILE_KEY) {
            let k = BIB_FILE_KEY.unicode_len();
            let arg = text.substring_char(a + k, b).to_owned();
            assert(arg@ =~= line.skip(k as int));
            outline.bib_file = arg;
        }
        proof {
            assert(state_of(
                outline@,
                file_counter,
                chapter_counter,
                section_counter,
                subsection_counter,
                last_chapter_name@,
                last_section_name@,
            ) =~= step(st, line));
            j = j + 1;
        }
        pos = next;
    }
    proof {
        assert(cs@.skip(pos as int) =~= Seq::<char>::empty());
        assert(lines(Seq::<char>::empty()) =~= Seq::<Seq<char>>::empty());
        assert(all.skip(j).len() == 0);
        assert(all.take(j) =~= all);
    }
    Some(outline)
}

/// Reads the text of a configuration file into an outline; where the file
/// could not be read (`None`), the minimal configuration is used instead.
pub fn read_contents(contents: Option<String>) -> (r: Option<Outline>)
    requires
        contents matches Some(s) ==> config_fits(s@),
    ensures
        r is Some,
        r matches Some(o) ==> o@ == parse_config(
            match contents {
                Some(s) => s@,
                None => MINIMAL_CONFIG@,
            },
        ),
{
    let config = match contents {
        Some(s) => s,
        None => MINIMAL_CONFIG.to_owned(),
    };
    proof {
        reveal_strlit("preamble: preamble.tex\nsection: Section Label\nfile: file-1.tex");
        lemma_short_config_fits(MINIMAL_CONFIG@);
    }
    parse(&config)
}

} // verus!

verus! {

// ---------------------------------------------------------------------------
// Laws of the outline
// ---------------------------------------------------------------------------

/// The lists of `o` have the lengths that its number of files gives them:
/// the chapter and section positions and names have one entry more than the
/// files, the indices as many.
pub open spec fn outline_shaped(o: OutlineModel) -> bool {
    &&& o.chapter_positions.len() == o.files.len() + 1
    &&& o.chapter_names.len() == o.files.len() + 1
    &&& o.section_positions.len() == o.files.len() + 1
    &&& o.section_names.len() == o.files.len() + 1
    &&& o.chapter_indices.len() == o.files.len()
    &&& o.section_indices.len() == o.files.len()
    &&& o.subsection_indices.len() == o.files.len()
}

/// Every chapter and section position is 0 or 1.
pub open spec fn positions_are_marks(o: OutlineModel) -> bool {
    &&& forall|i: int| 0 <= i < o.chapter_positions.len() ==> #[trigger] o.chapter_positions[i] <= 1
    &&& forall|i: int| 0 <= i < o.section_positions.len() ==> #[trigger] o.section_positions[i] <= 1
}

/// The arguments of the lines (each trimmed) of `ls` that name a file, in
/// order.
pub open spec fn file_arguments(ls: Seq<Seq<char>>) -> Seq<Seq<char>>
    decreases ls.len(),
{
    if ls.len() == 0 {
        Seq::empty()
    } else if begins_with(trim(ls.last()), FILE_KEY@) {
        file_arguments(ls.drop_last()).push(trim(ls.last()).skip(FILE_KEY@.len() as int))
    } else {
        file_arguments(ls.drop_last())
    }
}

proof fn lemma_begins_with_first(s: Seq<char>, p: Seq<char>)
    requires
        begins_with(s, p),
        p.len() > 0,
    ensures
        s[0] == p[0],
{
    assert(s.subrange(0, p.len() as int)[0] == s[0]);
}

/// A line that names a file names nothing else that is read before it.
proof fn lemma_file_line_is_file(line: Seq<char>)
    requires
        begins_with(line, FILE_KEY@),
    ensures
        !begins_with(line, PREAMBLE_KEY@),
        !begins_with(line, SECTION_KEY@),
        !begins_with(line, CHAPTER_KEY@),
{
    reveal_strlit("file: ");
    reveal_strlit("preamble: ");
    reveal_strlit("section: ");
    reveal_strlit("chapter: ");
    lemma_begins_with_first(line, FILE_KEY@);
    if begins_with(line, PREAMBLE_KEY@) {
        lemma_begins_with_first(line, PREAMBLE_KEY@);
    }
    if begins_with(line, SECTION_KEY@) {
        lemma_begins_with_first(line, SECTION_KEY@);
    }
    if begins_with(line, CHAPTER_KEY@) {
        lemma_begins_with_first(line, CHAPTER_KEY@);
    }
}

proof fn lemma_read_lines_files(ls: Seq<Seq<char>>)
    ensures
        read_lines(ls).outline.files == file_arguments(ls),
        positions_are_marks(read_lines(ls).outline),
    decreases ls.len(),
{
    if ls.len() > 0 {
        lemma_read_lines_files(ls.drop_last());
        let line = trim(ls.last());
        if begins_with(line, FILE_KEY@) {
            lemma_file_line_is_file(line);
        }
        lemma_read_lines_shaped(ls.drop_last());
        lemma_step_marks(read_lines(ls.drop_last()), line);
    }
}

proof fn lemma_marks_update(p: Seq<usize>, i: int, v: usize)
    requires
        forall|j: int| 0 <= j < p.len() ==> #[trigger] p[j] <= 1,
        v <= 1,
        0 <= i < p.len(),
    ensures
        forall|j: int| 0 <= j < p.update(i, v).len() ==> #[trigger] p.update(i, v)[j] <= 1,
{
    assert forall|j: int| 0 <= j < p.update(i, v).len() implies #[trigger] p.update(i, v)[j] <= 1 by {
        if j != i {
            assert(p.update(i, v)[j] == p[j]);
        }
    }
}

proof fn lemma_marks_push(p: Seq<usize>, v: usize)
    requires
        forall|j: int| 0 <= j < p.len() ==> #[trigger] p[j] <= 1,
        v <= 1,
    ensures
        forall|j: int| 0 <= j < p.push(v).len() ==> #[trigger] p.push(v)[j] <= 1,
{
    assert forall|j: int| 0 <= j < p.push(v).len() implies #[trigger] p.push(v)[j] <= 1 by {
        if j < p.len() {
            assert(p.push(v)[j] == p[j]);
        }
    }
}

proof fn lemma_step_marks(st: ConfigState, line: Seq<char>)
    requires
        positions_are_marks(st.outline),
        shaped(st),
    ensures
        positions_are_marks(step(st, line).outline),
{
    let o = st.outline;
    let fc = st.file_counter as int;
    lemma_marks_update(o.chapter_positions, fc, 1);
    lemma_marks_update(o.section_positions, fc, 1);
    lemma_marks_push(o.chapter_positions, 0);
    lemma_marks_push(o.section_positions, 0);
}

/// The outline of any configuration text has lists of the lengths that its
/// number of files gives them, its positions are all 0 or 1, and its files
/// are the arguments of the `file: ` lines, in order.
pub proof fn lemma_parse_config_outline(content: Seq<char>)
    ensures
        outline_shaped(parse_config(content)),
        positions_are_marks(parse_config(content)),
        parse_config(content).files == file_arguments(lines(content)),
{
    lemma_read_lines_shaped(lines(content));
    lemma_read_lines_files(lines(content));
}

/// The setting of the last line (each trimmed) of `ls` that starts with
/// `handle_subsections: `: whether its argument is exactly `true`; false
/// where no line does.
pub open spec fn last_subsections_setting(ls: Seq<Seq<char>>) -> bool
    decreases ls.len(),
{
    if ls.len() == 0 {
        false
    } else if begins_with(trim(ls.last()), HANDLE_SUBSECTIONS_KEY@) {
        trim(ls.last()).skip(HANDLE_SUBSECTIONS_KEY@.len() as int) == TRUE_TEXT@
    } else {
        last_subsections_setting(ls.drop_last())
    }
}

/// A line that sets subsection handling does nothing else that is read
/// before it.
proof fn lemma_subsections_line(line: Seq<char>)
    requires
        begins_with(line, HANDLE_SUBSECTIONS_KEY@),
    ensures
        !begins_with(line, PREAMBLE_KEY@),
        !begins_with(line, SECTION_KEY@),
        !begins_with(line, CHAPTER_KEY@),
        !begins_with(line, FILE_KEY@),
        !begins_with(line, CLASS_KEY@),
{
    reveal_strlit("handle_subsections: ");
    reveal_strlit("preamble: ");
    reveal_strlit("section: ");
    reveal_strlit("chapter: ");
    reveal_strlit("file: ");
    reveal_strlit("class: ");
    lemma_begins_with_first(line, HANDLE_SUBSECTIONS_KEY@);
    if begins_with(line, PREAMBLE_KEY@) {
        lemma_begins_with_first(line, PREAMBLE_KEY@);
    }
    if begins_with(line, SECTION_KEY@) {
        lemma_begins_with_first(line, SECTION_KEY@);
    }
    if begins_with(line, CHAPTER_KEY@) {
        lemma_begins_with_first(line, CHAPTER_KEY@);
    }
    if begins_with(line, FILE_KEY@) {
        lemma_begins_with_first(line, FILE_KEY@);
    }
    if begins_with(line, CLASS_KEY@) {
        lemma_begins_with_first(line, CLASS_KEY@);
    }
}

proof fn lemma_read_lines_subsections(ls: Seq<Seq<char>>)
    ensures
        read_lines(ls).outline.handle_subsections == last_subsections_setting(ls),
    decreases ls.len(),
{
    if ls.len() > 0 {
        lemma_read_lines_subsections(ls.drop_last());
        let line = trim(ls.last());
        if begins_with(line, HANDLE_SUBSECTIONS_KEY@) {
            lemma_subsections_line(line);
        }
    }
}

/// The setting of the last line (each trimmed) of `ls` that starts with
/// `handle_sections: `: whether its argument is exactly `true`; true where
/// no line does.
pub open spec fn last_sections_setting(ls: Seq<Seq<char>>) -> bool
    decreases ls.len(),
{
    if ls.len() == 0 {
        true
    } else if begins_with(trim(ls.last()), "handle_sections: "@) {
        trim(ls.last()).skip(17) == "true"@
    } else {
        last_sections_setting(ls.drop_last())
    }
}

proof fn lemma_begins_with_char(s: Seq<char>, p: Seq<char>, k: int)
    requires
        begins_with(s, p),
        0 <= k < p.len(),
    ensures
        s[k] == p[k],
{
    assert(s.subrange(0, p.len() as int)[k] == s[k]);
}

/// A line that sets section handling does nothing else that is read before
/// it.
proof fn lemma_sections_line(line: Seq<char>)
    requires
        begins_with(line, "handle_sections: "@),
    ensures
        !begins_with(line, PREAMBLE_KEY@),
        !begins_with(line, SECTION_KEY@),
        !begins_with(line, CHAPTER_KEY@),
        !begins_with(line, FILE_KEY@),
        !begins_with(line, CLASS_KEY@),
        !begins_with(line, HANDLE_SUBSECTIONS_KEY@),
        !begins_with(line, COMMENT_KEY@),
        begins_with(line, HANDLE_SECTIONS_KEY@),
        HANDLE_SECTIONS_KEY@.len() == 17,
        TRUE_TEXT@ == "true"@,
{
    reveal_strlit("handle_sections: ");
    reveal_strlit("handle_subsections: ");
    reveal_strlit("preamble: ");
    reveal_strlit("section: ");
    reveal_strlit("chapter: ");
    reveal_strlit("file: ");
    reveal_strlit("class: ");
    reveal_strlit("#");
    reveal_strlit("true");
    lemma_begins_with_char(line, "handle_sections: "@, 0);
    lemma_begins_with_char(line, "handle_sections: "@, 8);
    if begins_with(line, PREAMBLE_KEY@) {
        lemma_begins_with_char(line, PREAMBLE_KEY@, 0);
    }
    if begins_with(line, SECTION_KEY@) {
        lemma_begins_with_char(line, SECTION_KEY@, 0);
    }
    if begins_with(line, CHAPTER_KEY@) {
        lemma_begins_with_char(line, CHAPTER_KEY@, 0);
    }
    if begins_with(line, FILE_KEY@) {
        lemma_begins_with_char(line, FILE_KEY@, 0);
    }
    if begins_with(line, CLASS_KEY@) {
        lemma_begins_with_char(line, CLASS_KEY@, 0);
    }
    if begins_with(line, HANDLE_SUBSECTIONS_KEY@) {
        lemma_begins_with_char(line, HANDLE_SUBSECTIONS_KEY@, 8);
    }
    if begins_with(line, COMMENT_KEY@) {
        lemma_begins_with_char(line, COMMENT_KEY@, 0);
    }
}

proof fn lemma_read_lines_sections(ls: Seq<Seq<char>>)
    ensures
        read_lines(ls).outline.handle_sections == last_sections_setting(ls),
    decreases ls.len(),
{
    reveal_strlit("handle_sections: ");
    if ls.len() > 0 {
        lemma_read_lines_sections(ls.drop_last());
        let line = trim(ls.last());
        if begins_with(line, "handle_sections: "@) {
            lemma_sections_line(line);
        } else {
            assert(!begins_with(line, HANDLE_SECTIONS_KEY@));
        }
    }
}

/// Section commands are written exactly when the last line of the
/// configuration text that starts with `handle_sections: ` has the argument
/// `true`, and also where no line starts so: a later such line overrides an
/// earlier one.
pub proof fn lemma_parse_config_sections(content: Seq<char>)
    ensures
        parse_config(content).handle_sections == last_sections_setting(lines(content)),
{
    lemma_read_lines_sections(lines(content));
}

/// Subsection counters are written exactly when the last line of the
/// configuration text that starts with `handle_subsections: ` has the
/// argument `true`: a later such line overrides an earlier one, and without
/// one they are not written.
pub proof fn lemma_parse_config_subsections(content: Seq<char>)
    ensures
        parse_config(content).handle_subsections == last_subsections_setting(lines(content)),
{
    lemma_read_lines_subsections(lines(content));
}

} // verus!

verus! {

/// The chapter index of the file before file `i`, or 0 before the first.
pub open spec fn prior_chapter(o: OutlineModel, i: int) -> int {
    if i == 0 {
        0
    } else {
        o.chapter_indices[i - 1] as int
    }
}

/// The section index of the file before file `i`, or 0 before the first.
pub open spec fn prior_section(o: OutlineModel, i: int) -> int {
    if i == 0 {
        0
    } else {
        o.section_indices[i - 1] as int
    }
}

/// The subsection index that follows the file before file `i`, or 0 for the
/// first file.
pub open spec fn next_subsection(o: OutlineModel, i: int) -> int {
    if i == 0 {
        0
    } else {
        o.subsection_indices[i - 1] + 1
    }
}

/// How the counters `chapter`, `section` and `subsection` for a file follow
/// from the file before it (slot `i` of `o`) and from the headings right
/// before it: without a chapter heading the chapter stays, with one it
/// grows; without any heading the section stays and the subsection goes one
/// up; a section heading within the chapter makes the section grow; any
/// heading starts the subsections from 0, and a chapter heading alone starts
/// the sections from 0.
pub open spec fn follows_headings(
    o: OutlineModel,
    i: int,
    chapter: int,
    section: int,
    subsection: int,
) -> bool {
    let new_chapter = o.chapter_positions[i] == 1;
    let new_section = o.section_positions[i] == 1;
    &&& !new_chapter ==> chapter == prior_chapter(o, i)
    &&& new_chapter ==> chapter > prior_chapter(o, i)
    &&& !new_chapter && !new_section ==> section == prior_section(o, i) && subsection
        == next_subsection(o, i)
    &&& !new_chapter && new_section ==> section > prior_section(o, i) && subsection == 0
    &&& new_chapter && !new_section ==> section == 0 && subsection == 0
    &&& new_chapter && new_section ==> subsection == 0
}

/// Every file of `o` is numbered as the headings before it say.
pub open spec fn numbering_follows_headings(o: OutlineModel) -> bool {
    forall|i: int|
        0 <= i < o.files.len() ==> follows_headings(
            o,
            i,
            #[trigger] o.chapter_indices[i] as int,
            o.section_indices[i] as int,
            o.subsection_indices[i] as int,
        )
}

/// The state numbers its files as the headings say, and the counters it
/// holds are those the next file would get.
pub open spec fn numbering_state(st: ConfigState) -> bool {
    &&& shaped(st)
    &&& numbering_follows_headings(st.outline)
    &&& follows_headings(
        st.outline,
        st.file_counter as int,
        st.chapter_counter,
        st.section_counter,
        st.subsection_counter,
    )
}

proof fn lemma_step_numbering(st: ConfigState, line: Seq<char>)
    requires
        numbering_state(st),
        positions_are_marks(st.outline),
        counters_fit(st),
    ensures
        numbering_state(step(st, line)),
{
    let o = st.outline;
    let fc = st.file_counter as int;
    let st2 = step(st, line);
    let o2 = st2.outline;
    lemma_step_shaped(st, line);
    assert(o.chapter_positions[fc] <= 1);
    assert(o.section_positions[fc] <= 1);
    if begins_with(line, FILE_KEY@) {
        lemma_file_line_is_file(line);
        assert(o2.chapter_indices[fc] as int == st.chapter_counter);
        assert(o2.section_indices[fc] as int == st.section_counter);
        assert(o2.subsection_indices[fc] as int == st.subsection_counter);
        assert forall|i: int| 0 <= i < o2.files.len() implies follows_headings(
            o2,
            i,
            #[trigger] o2.chapter_indices[i] as int,
            o2.section_indices[i] as int,
            o2.subsection_indices[i] as int,
        ) by {
            if i < fc {
                assert(o2.chapter_indices[i] == o.chapter_indices[i]);
                assert(o2.section_indices[i] == o.section_indices[i]);
                assert(o2.subsection_indices[i] == o.subsection_indices[i]);
                assert(o2.chapter_positions[i] == o.chapter_positions[i]);
                assert(o2.section_positions[i] == o.section_positions[i]);
                assert(follows_headings(
                    o,
                    i,
                    o.chapter_indices[i] as int,
                    o.section_indices[i] as int,
                    o.subsection_indices[i] as int,
                ));
                if i > 0 {
                    assert(o2.chapter_indices[i - 1] == o.chapter_indices[i - 1]);
                    assert(o2.section_indices[i - 1] == o.section_indices[i - 1]);
                    assert(o2.subsection_indices[i - 1] == o.subsection_indices[i - 1]);
                }
            } else {
                assert(i == fc);
                assert(o2.chapter_positions[i] == o.chapter_positions[i]);
                assert(o2.section_positions[i] == o.section_positions[i]);
                if i > 0 {
                    assert(o2.chapter_indices[i - 1] == o.chapter_indices[i - 1]);
                    assert(o2.section_indices[i - 1] == o.section_indices[i - 1]);
                    assert(o2.subsection_indices[i - 1] == o.subsection_indices[i - 1]);
                }
            }
        }
        assert(o2.chapter_positions[fc + 1] == 0);
        assert(o2.section_positions[fc + 1] == 0);
    } else {
        assert(o2.files == o.files);
        assert(o2.chapter_indices == o.chapter_indices);
        assert(o2.section_indices == o.section_indices);
        assert(o2.subsection_indices == o.subsection_indices);
        assert forall|i: int| 0 <= i < o2.files.len() implies follows_headings(
            o2,
            i,
            #[trigger] o2.chapter_indices[i] as int,
            o2.section_indices[i] as int,
            o2.subsection_indices[i] as int,
        ) by {
            assert(o2.chapter_positions[i] == o.chapter_positions[i]);
            assert(o2.section_positions[i] == o.section_positions[i]);
            assert(follows_headings(
                o,
                i,
                o.chapter_indices[i] as int,
                o.section_indices[i] as int,
                o.subsection_indices[i] as int,
            ));
        }
    }
}

proof fn lemma_read_lines_numbering(ls: Seq<Seq<char>>)
    requires
        forall|k: int| 0 <= k <= ls.len() ==> counters_fit(#[trigger] read_lines(ls.take(k))),
    ensures
        numbering_state(read_lines(ls)),
    decreases ls.len(),
{
    if ls.len() == 0 {
        let o = read_lines(ls).outline;
        assert(o.chapter_positions[0] == 0);
        assert(o.section_positions[0] == 0);
    } else {
        let prev = ls.drop_last();
        assert forall|k: int| 0 <= k <= prev.len() implies counters_fit(
            #[trigger] read_lines(prev.take(k)),
        ) by {
            assert(prev.take(k) =~= ls.take(k));
        }
        lemma_read_lines_numbering(prev);
        lemma_read_lines_files(prev);
        assert(ls.take(prev.len() as int) =~= prev);
        assert(counters_fit(read_lines(ls.take(prev.len() as int))));
        lemma_step_numbering(read_lines(prev), trim(ls.last()));
    }
}

/// In the outline of a configuration text whose counters fit, every file is
/// numbered as the headings before it say: the chapter number grows at each
/// chapter heading and stays otherwise, the section number grows at each
/// section heading within a chapter, and the subsection number counts the
/// files since the last heading, from 0.
pub proof fn lemma_parse_config_numbering(content: Seq<char>)
    requires
        config_fits(content),
    ensures
        numbering_follows_headings(parse_config(content)),
{
    lemma_read_lines_numbering(lines(content));
}

} // verus!
