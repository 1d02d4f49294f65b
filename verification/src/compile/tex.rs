//! The TeX code of a document, the command line that compiles it with
//! `pdflatex`, and the files that compilation leaves behind.
use vstd::prelude::*;
use vstd::string::*;

use crate::config::{Outline, OutlineModel};
use crate::text::{decimal, decimal_text};
use crate::utils::print::{concat_all, texts};
use crate::utils::stack::TwoStack;

verus! {

// ---------------------------------------------------------------------------
// The TeX code
// ---------------------------------------------------------------------------

/// The largest of `ps`, or 0 where `ps` is empty.
pub open spec fn max_position(ps: Seq<usize>) -> int
    decreases ps.len(),
{
    if ps.len() == 0 {
        0
    } else {
        let m = max_position(ps.drop_last());
        if ps.last() > m {
            ps.last() as int
        } else {
            m
        }
    }
}

/// The indices `i` with `start <= i < end` whose file number `i + 1` is in
/// `range`, in increasing order.
pub open spec fn selected(range: Seq<usize>, start: int, end: int) -> Seq<int>
    decreases end - start,
{
    if end <= start {
        Seq::empty()
    } else {
        let rest = selected(range, start, end - 1);
        if range.contains(end as usize) {
            rest.push(end - 1)
        } else {
            rest
        }
    }
}

/// The chapter counter that file `i` is compiled with.
pub open spec fn chapter_counter(o: OutlineModel, i: int) -> int {
    o.chapter_indices[i] - 1
}

/// The section counter that file `i` is compiled with.
pub open spec fn section_counter(o: OutlineModel, i: int) -> int {
    o.section_indices[i] - 1
}

/// The chapter counter in force before a file: that of the file compiled
/// before it, or -1 before the first.
pub open spec fn previous_chapter(o: OutlineModel, prev: Option<int>) -> int {
    match prev {
        Some(p) => chapter_counter(o, p),
        None => -1,
    }
}

/// The section counter in force before a file, as `previous_chapter`.
pub open spec fn previous_section(o: OutlineModel, prev: Option<int>) -> int {
    match prev {
        Some(p) => section_counter(o, p),
        None => -1,
    }
}

/// A section starts at file `i`, where `prev` is the file compiled just
/// before it: the section number changes, or the chapter changes and file
/// `i` lies in a section (its section index is at least 1).
pub open spec fn section_starts(o: OutlineModel, i: int, prev: Option<int>) -> bool {
    ||| section_counter(o, i) != previous_section(o, prev)
    ||| (chapter_counter(o, i) != previous_chapter(o, prev) && o.section_indices[i] >= 1)
}

/// The chapter code before file `i`: where the chapter changes (`changed`),
/// the new chapter counter and, where chapters are handled, the heading.
pub open spec fn chapter_part(o: OutlineModel, i: int, changed: bool) -> Seq<char> {
    if changed {
        "\\setcounter{chapter}{"@ + decimal(chapter_counter(o, i)) + "}"@ + if o.handle_chapters {
            "\\chapter{"@ + o.chapter_names[i] + "}"@
        } else {
            Seq::empty()
        }
    } else {
        Seq::empty()
    }
}

/// The section code before file `i`: where a section starts (`starts`), the
/// new section counter and, where sections are handled, the heading.
pub open spec fn section_part(o: OutlineModel, i: int, starts: bool) -> Seq<char> {
    if starts {
        "\\setcounter{section}{"@ + decimal(section_counter(o, i)) + "}"@ + if o.handle_sections {
            "\\section{"@ + o.section_names[i] + "}"@
        } else {
            Seq::empty()
        }
    } else {
        Seq::empty()
    }
}

/// The subsection counter of file `i`, where subsections are handled.
pub open spec fn subsection_part(o: OutlineModel, i: int) -> Seq<char> {
    if o.handle_subsections {
        "\\setcounter{subsection}{"@ + decimal(o.subsection_indices[i] as int) + "}"@
    } else {
        Seq::empty()
    }
}

/// The code for file `i`, where `prev` is the file compiled just before it:
/// a new chapter counter (and heading) where the chapter changes, a new
/// section counter (and heading) where a section starts (see
/// `section_starts`), the subsection counter where subsections are handled,
/// and the file itself.
pub open spec fn file_block(o: OutlineModel, i: int, prev: Option<int>) -> Seq<char> {
    chapter_part(o, i, chapter_counter(o, i) != previous_chapter(o, prev)) + section_part(
        o,
        i,
        section_starts(o, i, prev),
    ) + subsection_part(o, i) + "\\input{"@ + o.files[i] + "}"@
}

/// The file compiled before the `t`-th of `sel`.
pub open spec fn previous_of(sel: Seq<int>, t: int) -> Option<int> {
    if t > 0 {
        Some(sel[t - 1])
    } else {
        None
    }
}

/// The code for the files `sel`, one after the other.
pub open spec fn file_blocks(o: OutlineModel, sel: Seq<int>) -> Seq<char>
    decreases sel.len(),
{
    if sel.len() == 0 {
        Seq::empty()
    } else {
        file_blocks(o, sel.drop_last()) + file_block(
            o,
            sel.last(),
            previous_of(sel, sel.len() - 1),
        )
    }
}

/// The bibliography commands, where a bibliography style is given.
pub open spec fn bibliography(o: OutlineModel) -> Seq<char> {
    if o.bib_style.len() > 0 {
        "\\bibliographystyle{"@ + o.bib_style + "}"@ + "\\bibliography{"@ + o.bib_file + "}"@
    } else {
        Seq::empty()
    }
}

/// The first index that the range reaches.
pub open spec fn range_start(range: Seq<usize>) -> int {
    range[0] - 1
}

/// The index at which the range stops.
pub open spec fn range_end(range: Seq<usize>) -> int {
    range.last() as int
}

/// The body of the document for the files of `range`: nothing where a
/// section position is greater than the number of files, and otherwise the code
/// of each file of the range from its first to its last number, followed by
/// the bibliography.
pub open spec fn document_content(range: Seq<usize>, o: OutlineModel) -> Seq<char> {
    if max_position(o.section_positions) > o.files.len() {
        Seq::empty()
    } else {
        file_blocks(o, selected(range, range_start(range), range_end(range))) + bibliography(o)
    }
}

/// Everything that the code of file `i` reads from the outline is there,
/// and its counters can be lowered by one.
pub open spec fn block_readable(o: OutlineModel, i: int, prev: Option<int>) -> bool {
    &&& 0 <= i < o.files.len()
    &&& i < o.chapter_indices.len()
    &&& i < o.section_indices.len()
    &&& o.chapter_indices[i] > i32::MIN
    &&& o.section_indices[i] > i32::MIN
    &&& (o.handle_chapters && chapter_counter(o, i) != previous_chapter(o, prev) ==> i
        < o.chapter_names.len())
    &&& (o.handle_sections && section_starts(o, i, prev) ==> i
        < o.section_names.len())
    &&& (o.handle_subsections ==> i < o.subsection_indices.len())
}

/// The code for `range` can be written from `o`: the range is not empty, its
/// first number is at least 1, and every file that is compiled has what its
/// code reads.
pub open spec fn content_readable(range: Seq<usize>, o: OutlineModel) -> bool {
    &&& range.len() > 0
    &&& range[0] >= 1
    &&& (max_position(o.section_positions) <= o.files.len() ==> {
        let sel = selected(range, range_start(range), range_end(range));
        forall|t: int| 0 <= t < sel.len() ==> block_readable(o, #[trigger] sel[t], previous_of(sel, t))
    })
}

/// The commands that pass each of `options` to the document class `class`.
pub open spec fn class_option_code(options: Seq<Seq<char>>, class: Seq<char>) -> Seq<char>
    decreases options.len(),
{
    if options.len() == 0 {
        Seq::empty()
    } else {
        class_option_code(options.drop_last(), class) + "\\PassOptionsToClass{"@ + options.last()
            + "}{"@ + class + "}"@
    }
}

/// The whole TeX code of the document, in double quotes: the class options,
/// the preamble, and the body between `\begin{document}` and
/// `\end{document}`.
pub open spec fn tex_code(range: Seq<usize>, o: OutlineModel, options: Seq<Seq<char>>) -> Seq<
    char,
> {
    "\""@ + class_option_code(options, o.class) + "\\input{"@ + o.preamble + "}"@
        + "\\begin{document}"@ + document_content(range, o) + "\\end{document}"@ + "\""@
}

proof fn lemma_selected_prefix(range: Seq<usize>, start: int, e1: int, e2: int)
    requires
        start <= e1 <= e2,
    ensures
        selected(range, start, e1).len() <= selected(range, start, e2).len(),
        forall|t: int|
            0 <= t < selected(range, start, e1).len() ==> selected(range, start, e2)[t]
                == selected(range, start, e1)[t],
    decreases e2 - e1,
{
    if e1 < e2 {
        lemma_selected_prefix(range, start, e1, e2 - 1);
    }
}

proof fn lemma_selected_bounds(range: Seq<usize>, start: int, end: int)
    ensures
        forall|t: int|
            0 <= t < selected(range, start, end).len() ==> start <= #[trigger] selected(
                range,
                start,
                end,
            )[t] < end,
    decreases end - start,
{
    if start < end {
        lemma_selected_bounds(range, start, end - 1);
        let rest = selected(range, start, end - 1);
        let all = selected(range, start, end);
        assert forall|t: int| 0 <= t < all.len() implies start <= #[trigger] all[t] < end by {
            if t < rest.len() {
                assert(all[t] == rest[t]);
            }
        }
    }
}

fn range_contains(range: &Vec<usize>, x: usize) -> (r: bool)
    ensures
        r == range@.contains(x),
{
    let mut i: usize = 0;
    while i < range.len()
        invariant
            i <= range@.len(),
            forall|j: int| 0 <= j < i ==> range@[j] != x,
        decreases range@.len() - i,
    {
        if range[i] == x {
            return true;
        }
        i += 1;
    }
    false
}

fn largest_position(ps: &Vec<usize>) -> (m: usize)
    ensures
        m == max_position(ps@),
{
    let mut max: usize = 0;
    let mut i: usize = 0;
    while i < ps.len()
        invariant
            i <= ps@.len(),
            max == max_position(ps@.take(i as int)),
        decreases ps@.len() - i,
    {
        assert(ps@.take(i + 1).drop_last() =~= ps@.take(i as int));
        if ps[i] > max {
            max = ps[i];
        }
        i += 1;
    }
    assert(ps@.take(i as int) =~= ps@);
    max
}

fn append_counter(c: &mut String, command: &str, value: i32)
    ensures
        final(c)@ == old(c)@ + command@ + decimal(value as int) + "}"@,
{
    c.append(command);
    c.append(decimal_text(value).as_str());
    c.append("}");
}

fn append_command(c: &mut String, command: &str, argument: &str)
    ensures
        final(c)@ == old(c)@ + command@ + argument@ + "}"@,
{
    c.append(command);
    c.append(argument);
    c.append("}");
}

fn chapter_code(outline: &Outline, i: usize, changed: bool) -> (r: String)
    requires
        i < outline@.chapter_indices.len(),
        outline@.chapter_indices[i as int] > i32::MIN,
        changed && outline@.handle_chapters ==> i < outline@.chapter_names.len(),
    ensures
        r@ == chapter_part(outline@, i as int, changed),
{
    let mut r = String::new();
    if changed {
        append_counter(&mut r, "\\setcounter{chapter}{", outline.chapter_indices[i] - 1);
        if outline.handle_chapters {
            append_command(&mut r, "\\chapter{", outline.chapter_names[i].as_str());
        }
    }
    r
}

fn section_code(outline: &Outline, i: usize, starts: bool) -> (r: String)
    requires
        i < outline@.section_indices.len(),
        outline@.section_indices[i as int] > i32::MIN,
        starts && outline@.handle_sections ==> i < outline@.section_names.len(),
    ensures
        r@ == section_part(outline@, i as int, starts),
{
    let mut r = String::new();
    if starts {
        append_counter(&mut r, "\\setcounter{section}{", outline.section_indices[i] - 1);
        if outline.handle_sections {
            append_command(&mut r, "\\section{", outline.section_names[i].as_str());
        }
    }
    r
}

fn subsection_code(outline: &Outline, i: usize) -> (r: String)
    requires
        outline@.handle_subsections ==> i < outline@.subsection_indices.len(),
    ensures
        r@ == subsection_part(outline@, i as int),
{
    let mut r = String::new();
    if outline.handle_subsections {
        append_counter(&mut r, "\\setcounter{subsection}{", outline.subsection_indices[i]);
    }
    r
}

/// Writes the code for file `i`, given the counters in force before it, and
/// gives back the counters in force after it.
#[verifier::spinoff_prover]
#[verifier::rlimit(40)]
fn append_file_block(
    c: &mut String,
    outline: &Outline,
    i: usize,
    last_chapter_idx: i32,
    last_section_idx: i32,
    Ghost(prev): Ghost<Option<int>>,
) -> (r: (i32, i32))
    requires
        block_readable(outline@, i as int, prev),
        last_chapter_idx == previous_chapter(outline@, prev),
        last_section_idx == previous_section(outline@, prev),
    ensures
        final(c)@ == old(c)@ + file_block(outline@, i as int, prev),
        r.0 == chapter_counter(outline@, i as int),
        r.1 == section_counter(outline@, i as int),
{
    let ghost o = outline@;
    let ghost c_before = c@;
    let chap = outline.chapter_indices[i] - 1;
    let sec = outline.section_indices[i] - 1;
    let changed = chap != last_chapter_idx;
    let starts = sec != last_section_idx || (changed && outline.section_indices[i] >= 1);
    assert(starts == section_starts(o, i as int, prev));
    let chapter_text = chapter_code(outline, i, changed);
    let section_text = section_code(outline, i, starts);
    let subsection_text = subsection_code(outline, i);
    c.append(chapter_text.as_str());
    c.append(section_text.as_str());
    c.append(subsection_text.as_str());
    append_command(c, "\\input{", outline.files[i].as_str());
    assert(c@ =~= c_before + file_block(o, i as int, prev));
    (chap, sec)
}

fn block_is_readable(
    outline: &Outline,
    i: usize,
    last_chapter_idx: i32,
    last_section_idx: i32,
    Ghost(prev): Ghost<Option<int>>,
) -> (r: bool)
    requires
        last_chapter_idx == previous_chapter(outline@, prev),
        last_section_idx == previous_section(outline@, prev),
    ensures
        r == block_readable(outline@, i as int, prev),
{
    if i >= outline.files.len() || i >= outline.chapter_indices.len() || i
        >= outline.section_indices.len() {
        return false;
    }
    let ch = outline.chapter_indices[i];
    let se = outline.section_indices[i];
    if ch == i32::MIN || se == i32::MIN {
        return false;
    }
    if outline.handle_chapters && ch - 1 != last_chapter_idx && i >= outline.chapter_names.len() {
        return false;
    }
    let section_starts = se - 1 != last_section_idx || (ch - 1 != last_chapter_idx && se >= 1);
    if outline.handle_sections && section_starts && i >= outline.section_names.len() {
        return false;
    }
    if outline.handle_subsections && i >= outline.subsection_indices.len() {
        return false;
    }
    true
}

/// Whether the code for `range` can be written from `outline` (see
/// `content_readable`): a caller tests this before asking for the code.
pub fn can_write_content(range: &Vec<usize>, outline: &Outline) -> (r: bool)
    ensures
        r == content_readable(range@, outline@),
{
    let ghost o = outline@;
    if range.len() == 0 || range[0] < 1 {
        return false;
    }
    let start = range[0] - 1;
    let end = range[range.len() - 1];
    let max = largest_position(&outline.section_positions);
    if max > outline.files.len() {
        return true;
    }
    let ghost sel = selected(range@, start as int, end as int);
    let mut file_idx = start;
    let mut last_chapter_idx: i32 = -1;
    let mut last_section_idx: i32 = -1;
    let ghost mut prev: Option<int> = None;
    while file_idx < end
        invariant
            o == outline@,
            start <= end ==> start <= file_idx <= end,
            start > end ==> file_idx == start,
            start == range_start(range@),
            end == range_end(range@),
            range@.len() > 0,
            range@[0] >= 1,
            sel == selected(range@, start as int, end as int),
            max_position(o.section_positions) <= o.files.len(),
            forall|t: int|
                0 <= t < selected(range@, start as int, file_idx as int).len() ==> block_readable(
                    o,
                    #[trigger] selected(range@, start as int, file_idx as int)[t],
                    previous_of(selected(range@, start as int, file_idx as int), t),
                ),
            prev == (if selected(range@, start as int, file_idx as int).len() > 0 {
                Some(selected(range@, start as int, file_idx as int).last())
            } else {
                None::<int>
            }),
            last_chapter_idx == previous_chapter(o, prev),
            last_section_idx == previous_section(o, prev),
        decreases end - file_idx,
    {
        let ghost before = selected(range@, start as int, file_idx as int);
        if range_contains(range, file_idx + 1) {
            let ghost t = before.len() as int;
            let ghost now = selected(range@, start as int, file_idx + 1);
            proof {
                assert(now == before.push(file_idx as int));
                lemma_selected_prefix(range@, start as int, file_idx + 1, end as int);
                assert(sel[t] == file_idx as int);
                assert(previous_of(sel, t) == prev);
            }
            if !block_is_readable(outline, file_idx, last_chapter_idx, last_section_idx, Ghost(prev)) {
                return false;
            }
            proof {
                assert forall|u: int| 0 <= u < now.len() implies block_readable(
                    o,
                    #[trigger] now[u],
                    previous_of(now, u),
                ) by {
                    if u < t {
                        assert(now[u] == before[u]);
                        assert(previous_of(now, u) == previous_of(before, u));
                    } else {
                        assert(previous_of(now, u) == prev);
                    }
                }
                prev = Some(file_idx as int);
            }
            last_chapter_idx = outline.chapter_indices[file_idx] - 1;
            last_section_idx = outline.section_indices[file_idx] - 1;
        } else {
            proof {
                assert(selected(range@, start as int, file_idx + 1) == before);
            }
        }
        file_idx += 1;
    }
    proof {
        if start > end {
            assert(selected(range@, start as int, end as int) =~= Seq::<int>::empty());
        }
    }
    true
}

/// The body of the document for the files of `range`.
pub fn get_document_content(range: &Vec<usize>, outline: &Outline) -> (c: String)
    requires
        content_readable(range@, outline@),
    ensures
        c@ == document_content(range@, outline@),
{
    let ghost o = outline@;
    let mut c = String::new();
    let num_files = outline.files.len();
    let start = range[0] - 1;
    let end = range[range.len() - 1];
    let max = largest_position(&outline.section_positions);
    if max > num_files {
        return c;
    }
    let ghost sel = selected(range@, start as int, end as int);
    let mut file_idx = start;
    let mut last_chapter_idx: i32 = -1;
    let mut last_section_idx: i32 = -1;
    let ghost mut prev: Option<int> = None;
    proof {
        lemma_selected_bounds(range@, start as int, end as int);
    }
    while file_idx < end
        invariant
            o == outline@,
            start <= end ==> start <= file_idx <= end,
            start > end ==> file_idx == start,
            start == range_start(range@),
            end == range_end(range@),
            sel == selected(range@, start as int, end as int),
            content_readable(range@, o),
            max_position(o.section_positions) <= o.files.len(),
            c@ == file_blocks(o, selected(range@, start as int, file_idx as int)),
            prev == (if selected(range@, start as int, file_idx as int).len() > 0 {
                Some(selected(range@, start as int, file_idx as int).last())
            } else {
                None::<int>
            }),
            last_chapter_idx == previous_chapter(o, prev),
            last_section_idx == previous_section(o, prev),
        decreases end - file_idx,
    {
        let ghost before = selected(range@, start as int, file_idx as int);
        if range_contains(range, file_idx + 1) {
            let ghost t = before.len() as int;
            proof {
                let now = selected(range@, start as int, file_idx + 1);
                assert(now == before.push(file_idx as int));
                lemma_selected_prefix(range@, start as int, file_idx + 1, end as int);
                assert(sel[t] == file_idx as int);
                assert(previous_of(sel, t) == prev);
                assert(block_readable(o, sel[t], previous_of(sel, t)));
            }
            let r = append_file_block(
                &mut c,
                outline,
                file_idx,
                last_chapter_idx,
                last_section_idx,
                Ghost(prev),
            );
            last_chapter_idx = r.0;
            last_section_idx = r.1;
            proof {
                let now = selected(range@, start as int, file_idx + 1);
                assert(now.drop_last() =~= before);
                assert(previous_of(now, now.len() - 1) == prev);
                prev = Some(file_idx as int);
            }
        } else {
            proof {
                assert(selected(range@, start as int, file_idx + 1) == before);
            }
        }
        file_idx += 1;
    }
    proof {
        if start > end {
            assert(selected(range@, start as int, end as int) =~= Seq::<int>::empty());
            assert(selected(range@, start as int, start as int) =~= Seq::<int>::empty());
        }
    }
    if outline.bib_style.as_str().unicode_len() > 0 {
        c.append("\\bibliographystyle{");
        c.append(outline.bib_style.as_str());
        c.append("}");
        c.append("\\bibliography{");
        c.append(outline.bib_file.as_str());
        c.append("}");
    }
    c
}

/// The whole TeX code of the document for the files of `range`, in double
/// quotes, with `class_options` passed to the document class.
pub fn get_tex_code(range: &Vec<usize>, outline: &Outline, class_options: &Vec<String>) -> (t:
    String)
    requires
        content_readable(range@, outline@),
    ensures
        t@ == tex_code(range@, outline@, texts(class_options@)),
{
    let mut t = String::new();
    t.append("\"");
    let mut i: usize = 0;
    while i < class_options.len()
        invariant
            i <= class_options@.len(),
            t@ == "\""@ + class_option_code(texts(class_options@.take(i as int)), outline@.class),
        decreases class_options@.len() - i,
    {
        assert(texts(class_options@.take(i + 1)).drop_last() =~= texts(
            class_options@.take(i as int),
        ));
        t.append("\\PassOptionsToClass{");
        t.append(class_options[i].as_str());
        t.append("}{");
        t.append(outline.class.as_str());
        t.append("}");
        i += 1;
    }
    assert(class_options@.take(i as int) =~= class_options@);
    t.append("\\input{");
    t.append(outline.preamble.as_str());
    t.append("}");
    t.append("\\begin{document}");
    let content = get_document_content(range, outline);
    t.append(content.as_str());
    t.append("\\end{document}");
    t.append("\"");
    t
}

// ---------------------------------------------------------------------------
// The command line
// ---------------------------------------------------------------------------

/// The name of the output file: `jobname`, or `out` where it is empty.
pub open spec fn output_name(jobname: Seq<char>) -> Seq<char> {
    if jobname.len() == 0 {
        "out"@
    } else {
        jobname
    }
}

/// The command line that compiles the document with `pdflatex`: the engine,
/// the name of the output, and the TeX code.
pub fn get_pdflatex_command_list(
    jobname: &String,
    range: &Vec<usize>,
    outline: &Outline,
    class_options: &Vec<String>,
) -> (cl: Vec<String>)
    requires
        content_readable(range@, outline@),
    ensures
        texts(cl@) == seq![
            "pdflatex"@,
            "-jobname="@ + output_name(jobname@),
            tex_code(range@, outline@, texts(class_options@)),
        ],
{
    let mut cl: Vec<String> = Vec::new();
    cl.push("pdflatex".to_owned());
    let mut j = "-jobname=".to_owned();
    if jobname.as_str().unicode_len() == 0 {
        j.append("out");
    } else {
        j.append(jobname.as_str());
    }
    cl.push(j);
    cl.push(get_tex_code(range, outline, class_options));
    assert(texts(cl@) =~= seq![
        "pdflatex"@,
        "-jobname="@ + output_name(jobname@),
        tex_code(range@, outline@, texts(class_options@)),
    ]);
    cl
}

// ---------------------------------------------------------------------------
// The files around a compilation
// ---------------------------------------------------------------------------

/// The names of the auxiliary file and of the bibliography file that a
/// compilation under `jobname` writes.
pub fn recorded_files(jobname: &String) -> (r: (String, String))
    ensures
        r.0@ == jobname@ + ".aux"@,
        r.1@ == jobname@ + ".bbl"@,
{
    let mut aux = jobname.clone();
    let mut bbl = jobname.clone();
    aux.append(".aux");
    bbl.append(".bbl");
    (aux, bbl)
}

/// Keeps the hash of a file, where the file could be read.
pub fn record_hash(hashes: &mut TwoStack<u64>, hash: Option<u64>)
    ensures
        match hash {
            Some(h) => TwoStack::pushed(*old(hashes), h, *final(hashes)),
            None => *final(hashes) == *old(hashes),
        },
{
    match hash {
        Some(h) => hashes.push(h),
        None => {},
    }
}

/// The endings of the files that compilation leaves behind.
pub open spec fn auxiliary_endings() -> Seq<Seq<char>> {
    seq![".aux"@, ".log"@, ".toc"@, ".bbl"@, ".blg"@]
}

/// `name` ends with `ending`.
pub open spec fn ends_with(name: Seq<char>, ending: Seq<char>) -> bool {
    ending.len() <= name.len() && name.skip(name.len() - ending.len()) == ending
}

/// `name` is that of a file that compilation leaves behind.
pub open spec fn is_auxiliary(name: Seq<char>) -> bool {
    exists|e: int| 0 <= e < auxiliary_endings().len() && ends_with(name, auxiliary_endings()[e])
}

/// The names among `names` that are those of files that compilation leaves
/// behind, in order.
pub open spec fn auxiliary_names(names: Seq<Seq<char>>) -> Seq<Seq<char>>
    decreases names.len(),
{
    if names.len() == 0 {
        Seq::empty()
    } else if is_auxiliary(names.last()) {
        auxiliary_names(names.drop_last()).push(names.last())
    } else {
        auxiliary_names(names.drop_last())
    }
}

fn name_ends_with(name: &str, ending: &str) -> (r: bool)
    ensures
        r == ends_with(name@, ending@),
{
    let n = name.unicode_len();
    let m = ending.unicode_len();
    if m > n {
        return false;
    }
    let mut i: usize = 0;
    while i < m
        invariant
            n == name@.len(),
            m == ending@.len(),
            m <= n,
            i <= m,
            forall|j: int| 0 <= j < i ==> name@[n - m + j] == ending@[j],
        decreases m - i,
    {
        if name.get_char(n - m + i) != ending.get_char(i) {
            assert(name@.skip(n - m)[i as int] != ending@[i as int]);
            return false;
        }
        i += 1;
    }
    assert(name@.skip(n - m) =~= ending@);
    true
}

/// The names among `names` (the files of a directory) that are those of
/// files that compilation leaves behind: those ending in `.aux`, `.log`,
/// `.toc`, `.bbl` or `.blg`.
pub fn auxiliary_files(names: &Vec<String>) -> (files: Vec<String>)
    ensures
        texts(files@) == auxiliary_names(texts(names@)),
{
    let mut files: Vec<String> = Vec::new();
    let mut i: usize = 0;
    while i < names.len()
        invariant
            i <= names@.len(),
            texts(files@) == auxiliary_names(texts(names@.take(i as int))),
        decreases names@.len() - i,
    {
        let ghost before = texts(files@);
        assert(texts(names@.take(i + 1)).drop_last() =~= texts(names@.take(i as int)));
        assert(texts(names@.take(i + 1)).last() == names@[i as int]@);
        let name = names[i].as_str();
        let found = name_ends_with(name, ".aux") || name_ends_with(name, ".log")
            || name_ends_with(name, ".toc") || name_ends_with(name, ".bbl")
            || name_ends_with(name, ".blg");
        proof {
            let ends = auxiliary_endings();
            if found {
                if ends_with(name@, ".aux"@) {
                    assert(ends_with(name@, ends[0]));
                } else if ends_with(name@, ".log"@) {
                    assert(ends_with(name@, ends[1]));
                } else if ends_with(name@, ".toc"@) {
                    assert(ends_with(name@, ends[2]));
                } else if ends_with(name@, ".bbl"@) {
                    assert(ends_with(name@, ends[3]));
                } else {
                    assert(ends_with(name@, ends[4]));
                }
            } else {
                assert forall|e: int| 0 <= e < ends.len() implies !ends_with(name@, ends[e]) by {
                    if e == 0 {
                    } else if e == 1 {
                    } else if e == 2 {
                    } else if e == 3 {
                    } else {
                    }
                }
            }
        }
        if found {
            files.push(names[i].clone());
            assert(texts(files@) =~= before.push(names@[i as int]@));
        }
        i += 1;
    }
    assert(names@.take(i as int) =~= names@);
    files
}

// ---------------------------------------------------------------------------
// Laws
// ---------------------------------------------------------------------------

/// `part` occurs in `whole` as a contiguous piece.
pub open spec fn occurs_in(part: Seq<char>, whole: Seq<char>) -> bool {
    exists|k: int|
        0 <= k && k + part.len() <= whole.len() && #[trigger] whole.subrange(k, k + part.len())
            == part
}

/// Wherever the section counter of a compiled file differs from that of the
/// file compiled just before it (or from -1, before the first compiled
/// file), the code for the file holds the new section counter and, where
/// sections are handled, the section heading; this holds wherever the
/// section's first file lies, inside the range or not.
pub proof fn lemma_section_heading_written(o: OutlineModel, i: int, prev: Option<int>)
    requires
        0 <= i < o.section_indices.len(),
        0 <= i < o.chapter_indices.len(),
        prev matches Some(p) ==> 0 <= p < o.section_indices.len() && p < o.chapter_indices.len(),
        o.section_indices[i] - 1 != (match prev {
            Some(p) => o.section_indices[p] - 1,
            None => -1,
        }),
    ensures
        ({
            let code = file_block(o, i, prev);
            let wanted = "\\setcounter{section}{"@ + decimal(o.section_indices[i] - 1) + "}"@
                + if o.handle_sections {
                "\\section{"@ + o.section_names[i] + "}"@
            } else {
                Seq::empty()
            };
            occurs_in(wanted, code)
        }),
{
    let code = file_block(o, i, prev);
    let a = chapter_part(o, i, chapter_counter(o, i) != previous_chapter(o, prev));
    let b = section_part(o, i, section_starts(o, i, prev));
    let rest = subsection_part(o, i) + "\\input{"@ + o.files[i] + "}"@;
    let wanted = "\\setcounter{section}{"@ + decimal(o.section_indices[i] - 1) + "}"@
        + if o.handle_sections {
        "\\section{"@ + o.section_names[i] + "}"@
    } else {
        Seq::empty()
    };
    assert(section_starts(o, i, prev));
    assert(b == wanted);
    assert(code =~= a + b + rest);
    let k = a.len() as int;
    assert(code.subrange(k, k + wanted.len()) =~= wanted);
    assert(0 <= k && k + wanted.len() <= code.len());
    assert(occurs_in(wanted, code));
}

spec fn aux_ending(x: Seq<char>) -> bool {
    x.len() >= 4 && (x.skip(x.len() - 4) == ".aux"@ || x.skip(x.len() - 4) == ".log"@ || x.skip(
        x.len() - 4,
    ) == ".toc"@ || x.skip(x.len() - 4) == ".bbl"@ || x.skip(x.len() - 4) == ".blg"@)
}

proof fn lemma_is_auxiliary_ending(x: Seq<char>)
    ensures
        is_auxiliary(x) == aux_ending(x),
{
    reveal_strlit(".aux");
    reveal_strlit(".log");
    reveal_strlit(".toc");
    reveal_strlit(".bbl");
    reveal_strlit(".blg");
    let ends = auxiliary_endings();
    if is_auxiliary(x) {
        let e = choose|e: int| 0 <= e < ends.len() && ends_with(x, ends[e]);
        assert(ends[e].len() == 4);
    }
    if aux_ending(x) {
        if x.skip(x.len() - 4) == ".aux"@ {
            assert(ends_with(x, ends[0]));
        } else if x.skip(x.len() - 4) == ".log"@ {
            assert(ends_with(x, ends[1]));
        } else if x.skip(x.len() - 4) == ".toc"@ {
            assert(ends_with(x, ends[2]));
        } else if x.skip(x.len() - 4) == ".bbl"@ {
            assert(ends_with(x, ends[3]));
        } else {
            assert(ends_with(x, ends[4]));
        }
    }
}

proof fn lemma_auxiliary_names_contains(names: Seq<Seq<char>>, x: Seq<char>)
    ensures
        auxiliary_names(names).contains(x) <==> (names.contains(x) && is_auxiliary(x)),
    decreases names.len(),
{
    if names.len() > 0 {
        let init = names.drop_last();
        let last = names.last();
        lemma_auxiliary_names_contains(init, x);
        let r = auxiliary_names(init);
        if names.contains(x) && x != last {
            let j = choose|j: int| 0 <= j < names.len() && names[j] == x;
            assert(init[j] == x);
        }
        if init.contains(x) {
            let j = choose|j: int| 0 <= j < init.len() && init[j] == x;
            assert(names[j] == x);
        }
        if x == last {
            assert(names[names.len() - 1] == x);
        }
        if is_auxiliary(last) {
            assert(r.push(last)[r.len() as int] == last);
            if r.push(last).contains(x) && x != last {
                let j = choose|j: int| 0 <= j < r.push(last).len() && r.push(last)[j] == x;
                assert(r[j] == x);
            }
            if r.contains(x) {
                let j = choose|j: int| 0 <= j < r.len() && r[j] == x;
                assert(r.push(last)[j] == x);
            }
        }
    }
}

/// The names chosen for removal are exactly those of `names` that end in
/// `.aux`, `.log`, `.toc`, `.bbl` or `.blg`.
pub proof fn lemma_auxiliary_names_exact(names: Seq<Seq<char>>)
    ensures
        forall|x: Seq<char>|
            #[trigger] auxiliary_names(names).contains(x) <==> (names.contains(x) && x.len() >= 4 && (
            x.skip(x.len() - 4) == ".aux"@ || x.skip(x.len() - 4) == ".log"@ || x.skip(x.len() - 4)
                == ".toc"@ || x.skip(x.len() - 4) == ".bbl"@ || x.skip(x.len() - 4) == ".blg"@)),
{
    assert forall|x: Seq<char>|
        #[trigger] auxiliary_names(names).contains(x) <==> (names.contains(x) && x.len() >= 4 && (
        x.skip(x.len() - 4) == ".aux"@ || x.skip(x.len() - 4) == ".log"@ || x.skip(x.len() - 4)
            == ".toc"@ || x.skip(x.len() - 4) == ".bbl"@ || x.skip(x.len() - 4) == ".blg"@)) by {
        lemma_auxiliary_names_contains(names, x);
        lemma_is_auxiliary_ending(x);
    }
}

proof fn lemma_occurs_in_trans(a: Seq<char>, b: Seq<char>, c: Seq<char>)
    requires
        occurs_in(a, b),
        occurs_in(b, c),
    ensures
        occurs_in(a, c),
{
    let k1 = choose|k: int| 0 <= k && k + a.len() <= b.len() && #[trigger] b.subrange(k, k + a.len()) == a;
    let k2 = choose|k: int| 0 <= k && k + b.len() <= c.len() && #[trigger] c.subrange(k, k + b.len()) == b;
    assert(c.subrange(k2 + k1, k2 + k1 + a.len()) =~= a);
}

proof fn lemma_occurs_in_prefix(a: Seq<char>, b: Seq<char>, extra: Seq<char>)
    requires
        occurs_in(a, b),
    ensures
        occurs_in(a, b + extra),
{
    let k = choose|k: int| 0 <= k && k + a.len() <= b.len() && #[trigger] b.subrange(k, k + a.len()) == a;
    assert((b + extra).subrange(k, k + a.len()) =~= a);
}

proof fn lemma_block_in_blocks(o: OutlineModel, sel: Seq<int>, t: int)
    requires
        0 <= t < sel.len(),
    ensures
        occurs_in(file_block(o, sel[t], previous_of(sel, t)), file_blocks(o, sel)),
    decreases sel.len(),
{
    let init = sel.drop_last();
    let blk = file_block(o, sel[t], previous_of(sel, t));
    if t == sel.len() - 1 {
        let head = file_blocks(o, init);
        assert(file_blocks(o, sel).subrange(head.len() as int, head.len() + blk.len() as int) =~= blk);
    } else {
        lemma_block_in_blocks(o, init, t);
        assert(init[t] == sel[t]);
        assert(previous_of(init, t) == previous_of(sel, t));
        lemma_occurs_in_prefix(blk, file_blocks(o, init), file_block(o, sel.last(), previous_of(sel, sel.len() - 1)));
    }
}

/// In the body of a document, every compiled file whose section counter
/// differs from that of the file compiled just before it (or from -1, for
/// the first compiled file) is preceded by the new section counter and,
/// where sections are handled, by the section heading; where the section's
/// first file lies, inside the range or not, plays no part.
pub proof fn lemma_document_section_headings(range: Seq<usize>, o: OutlineModel, t: int)
    requires
        content_readable(range, o),
        max_position(o.section_positions) <= o.files.len(),
        0 <= t < selected(range, range_start(range), range_end(range)).len(),
        ({
            let sel = selected(range, range_start(range), range_end(range));
            o.section_indices[sel[t]] - 1 != (if t > 0 {
                o.section_indices[sel[t - 1]] - 1
            } else {
                -1
            })
        }),
    ensures
        ({
            let sel = selected(range, range_start(range), range_end(range));
            let i = sel[t];
            let wanted = "\\setcounter{section}{"@ + decimal(o.section_indices[i] - 1) + "}"@
                + if o.handle_sections {
                "\\section{"@ + o.section_names[i] + "}"@
            } else {
                Seq::empty()
            };
            occurs_in(wanted, document_content(range, o))
        }),
{
    let sel = selected(range, range_start(range), range_end(range));
    let i = sel[t];
    let prev = previous_of(sel, t);
    assert(block_readable(o, sel[t], previous_of(sel, t)));
    if t > 0 {
        assert(block_readable(o, sel[t - 1], previous_of(sel, t - 1)));
    }
    lemma_section_heading_written(o, i, prev);
    let wanted = "\\setcounter{section}{"@ + decimal(o.section_indices[i] - 1) + "}"@
        + if o.handle_sections {
        "\\section{"@ + o.section_names[i] + "}"@
    } else {
        Seq::empty()
    };
    lemma_block_in_blocks(o, sel, t);
    lemma_occurs_in_trans(wanted, file_block(o, i, prev), file_blocks(o, sel));
    lemma_occurs_in_prefix(wanted, file_blocks(o, sel), bibliography(o));
}

} // verus!
