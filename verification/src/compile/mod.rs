//! The command that compiles a document: which engine, which output name,
//! which files, and which class options; and how a range of files is read
//! from the command line.
use number_range::NumberRangeOptions;
use vstd::prelude::*;
use vstd::string::*;

use crate::config::{Outline, OutlineModel, empty_outline};
use crate::parse_args::{
    ArgMap,
    Entries,
    has_key,
    lookup,
    CLASS_OPTION,
    CLEAN_ARG,
    DRYRUN_ARG,
    ENGINE_ARG,
    JOBNAME_ARG,
    QUIET_ARG,
    RANGE_ARG,
};
use crate::text::{
    begins_with_char,
    bool_string,
    bool_text,
    chars_of,
    is_alphabetic,
    is_alphabetic_char,
    parse_i32,
    parse_i32_text,
    same_text,
};
use crate::utils::print::texts;

pub mod tex;

use tex::{content_readable, output_name, tex_code};

verus! {

/// The engine that is used when none is named.
pub const DEFAULT_ENGINE: &'static str = "pdflatex";

/// The range of files that is used when none is named.
pub const DEFAULT_RANGE: &'static str = "1";

/// The name of the output when none is named.
pub const DEFAULT_JOBNAME: &'static str = "job";

/// The program that compiles the document.
pub enum Engine {
    LATEX,
    PDFLATEX,
}

/// Everything needed to compile a document.
pub struct CMD {
    pub engine: Engine,
    pub jobname: String,
    pub range: Vec<usize>,
    pub quiet: bool,
    pub outline: Outline,
    pub class_options: Vec<String>,
}

/// `s` without any double quote.
pub open spec fn remove_quotes(s: Seq<char>) -> Seq<char>
    decreases s.len(),
{
    if s.len() == 0 {
        Seq::empty()
    } else if s.last() == '"' {
        remove_quotes(s.drop_last())
    } else {
        remove_quotes(s.drop_last()).push(s.last())
    }
}

/// The code that `get_code` gives for a command.
pub open spec fn code_of(engine: Engine, range: Seq<usize>, o: OutlineModel, options: Seq<Seq<char>>) -> Seq<char> {
    match engine {
        Engine::PDFLATEX => remove_quotes(tex_code(range, o, options)),
        Engine::LATEX => Seq::empty(),
    }
}

/// What a dry run shows of a command: the TeX code that is appended to it
/// (for an engine other than `pdflatex`, a note that it is not supported),
/// and whether quiet mode is on.
pub open spec fn command_description(
    engine: Engine,
    range: Seq<usize>,
    o: OutlineModel,
    options: Seq<Seq<char>>,
    quiet: bool,
) -> Seq<char> {
    "The code appended to the command will be:\n"@ + match engine {
        Engine::PDFLATEX => tex_code(range, o, options) + "\n"@,
        Engine::LATEX => "Invalid engine detected.\n"@,
    } + "Quiet mode enabled: "@ + bool_text(quiet)
}

/// The name of the program of `engine`.
pub open spec fn engine_program(engine: Engine) -> Seq<char> {
    match engine {
        Engine::LATEX => "latex"@,
        Engine::PDFLATEX => "pdflatex"@,
    }
}

impl CMD {
    /// A command with the default values: `pdflatex`, output `out`, no
    /// files, no class options, and an empty outline.
    pub fn new() -> (c: CMD)
        ensures
            c.engine == Engine::PDFLATEX,
            c.jobname@ == "out"@,
            c.range@.len() == 0,
            !c.quiet,
            c.outline@ == empty_outline(),
            c.class_options@.len() == 0,
    {
        CMD {
            engine: Engine::PDFLATEX,
            jobname: "out".to_owned(),
            range: Vec::new(),
            quiet: false,
            outline: Outline::new(),
            class_options: Vec::new(),
        }
    }

    /// The program and the output name, as they start the command line.
    pub fn command_list(&self) -> (l: Vec<String>)
        ensures
            texts(l@) == seq![engine_program(self.engine), "-jobname="@ + output_name(self.jobname@)],
    {
        let mut l: Vec<String> = Vec::new();
        match self.engine {
            Engine::LATEX => {
                l.push("latex".to_owned());
            },
            Engine::PDFLATEX => {
                l.push("pdflatex".to_owned());
            },
        }
        let mut j = "-jobname=".to_owned();
        if self.jobname.as_str().unicode_len() == 0 {
            j.append("out");
        } else {
            j.append(self.jobname.as_str());
        }
        l.push(j);
        assert(texts(l@) =~= seq![
            engine_program(self.engine),
            "-jobname="@ + output_name(self.jobname@),
        ]);
        l
    }

    /// The TeX code of the document, in double quotes.
    pub fn get_tex_code(&self) -> (t: String)
        requires
            content_readable(self.range@, self.outline@),
        ensures
            t@ == tex_code(self.range@, self.outline@, texts(self.class_options@)),
    {
        tex::get_tex_code(&self.range, &self.outline, &self.class_options)
    }

    /// The code that compiles the document, without any double quote; for
    /// an engine other than `pdflatex`, nothing.
    pub fn get_code(&self) -> (code: String)
        requires
            self.engine == Engine::PDFLATEX ==> content_readable(self.range@, self.outline@),
        ensures
            code@ == code_of(self.engine, self.range@, self.outline@, texts(self.class_options@)),
    {
        match self.engine {
            Engine::PDFLATEX => {
                let code = tex::get_tex_code(&self.range, &self.outline, &self.class_options);
                let cs = chars_of(code.as_str());
                let mut r = String::new();
                let mut i: usize = 0;
                while i < cs.len()
                    invariant
                        cs@ == code@,
                        i <= cs@.len(),
                        r@ == remove_quotes(cs@.take(i as int)),
                    decreases cs@.len() - i,
                {
                    assert(cs@.take(i + 1).drop_last() =~= cs@.take(i as int));
                    if cs[i] != '"' {
                        let one = code.as_str().substring_char(i, i + 1);
                        assert(one@ =~= seq![cs@[i as int]]);
                        r.append(one);
                    }
                    i += 1;
                }
                assert(cs@.take(i as int) =~= cs@);
                r
            },
            Engine::LATEX => String::new(),
        }
    }

    /// The command as a dry run shows it (see `command_description`).
    pub fn describe(&self) -> (d: String)
        requires
            self.engine == Engine::PDFLATEX ==> content_readable(self.range@, self.outline@),
        ensures
            d@ == command_description(
                self.engine,
                self.range@,
                self.outline@,
                texts(self.class_options@),
                self.quiet,
            ),
    {
        let mut d = "The code appended to the command will be:\n".to_owned();
        match self.engine {
            Engine::PDFLATEX => {
                d.append(tex::get_tex_code(&self.range, &self.outline, &self.class_options).as_str());
                d.append("\n");
            },
            Engine::LATEX => {
                d.append("Invalid engine detected.\n");
            },
        }
        d.append("Quiet mode enabled: ");
        d.append(bool_string(self.quiet).as_str());
        d
    }
}

/// Removing quotes from a text that is put in double quotes gives the same
/// as removing them from the text alone; a text without double quotes is
/// left as it is.
pub proof fn lemma_code_is_unquoted_tex(x: Seq<char>)
    ensures
        remove_quotes(seq!['"'] + x + seq!['"']) == remove_quotes(x),
        (forall|i: int| 0 <= i < x.len() ==> x[i] != '"') ==> remove_quotes(x) == x,
{
    lemma_remove_quotes_append(seq!['"'], x);
    lemma_remove_quotes_append(seq!['"'] + x, seq!['"']);
    assert(remove_quotes(seq!['"']) =~= Seq::<char>::empty()) by {
        reveal_with_fuel(remove_quotes, 2);
        assert(seq!['"'].drop_last() =~= Seq::<char>::empty());
    }
    assert(Seq::<char>::empty() + remove_quotes(x) =~= remove_quotes(x));
    assert(remove_quotes(x) + Seq::<char>::empty() =~= remove_quotes(x));
    lemma_remove_quotes_unquoted(x);
}

proof fn lemma_remove_quotes_append(a: Seq<char>, b: Seq<char>)
    ensures
        remove_quotes(a + b) == remove_quotes(a) + remove_quotes(b),
    decreases b.len(),
{
    if b.len() == 0 {
        assert(a + b =~= a);
        assert(remove_quotes(a) + remove_quotes(b) =~= remove_quotes(a));
    } else {
        assert((a + b).drop_last() =~= a + b.drop_last());
        lemma_remove_quotes_append(a, b.drop_last());
        if b.last() != '"' {
            assert(remove_quotes(a) + remove_quotes(b.drop_last()).push(b.last()) =~= (
            remove_quotes(a) + remove_quotes(b.drop_last())).push(b.last()));
        }
    }
}

proof fn lemma_remove_quotes_unquoted(x: Seq<char>)
    ensures
        (forall|i: int| 0 <= i < x.len() ==> x[i] != '"') ==> remove_quotes(x) == x,
    decreases x.len(),
{
    if x.len() > 0 {
        lemma_remove_quotes_unquoted(x.drop_last());
        if forall|i: int| 0 <= i < x.len() ==> x[i] != '"' {
            assert(forall|i: int|
                0 <= i < x.drop_last().len() ==> x.drop_last()[i] == x[i]);
            assert(x.drop_last().push(x.last()) =~= x);
        }
    }
}

/// The engine that `proposed` names: `latex` names LaTeX; anything else,
/// `pdflatex` included, gives `pdflatex`.
pub open spec fn engine_named(proposed: Seq<char>) -> Engine {
    if proposed == "latex"@ {
        Engine::LATEX
    } else {
        Engine::PDFLATEX
    }
}

/// A command for the given engine, output name, files, outline and class
/// options.
pub fn create_command(
    proposed_engine: &str,
    jobname: &str,
    range: Vec<usize>,
    outline: Outline,
    class_options: Vec<String>,
) -> (cmd: CMD)
    ensures
        cmd.engine == engine_named(proposed_engine@),
        cmd.jobname@ == jobname@,
        cmd.range@ == range@,
        !cmd.quiet,
        cmd.outline == outline,
        cmd.class_options@ == class_options@,
{
    let engine: Engine = if same_text(proposed_engine, "latex") {
        Engine::LATEX
    } else {
        Engine::PDFLATEX
    };
    let mut cmd = CMD::new();
    cmd.engine = engine;
    cmd.jobname = jobname.to_owned();
    cmd.range = range;
    cmd.outline = outline;
    cmd.class_options = class_options;
    cmd
}

// ---------------------------------------------------------------------------
// Ranges given by name
// ---------------------------------------------------------------------------

/// The numbers `k` (from 1) of the entries of `names` equal to `name`, where
/// `k <= limit`.
pub open spec fn named_files(names: Seq<Seq<char>>, limit: int, name: Seq<char>) -> Seq<usize>
    decreases names.len(),
{
    if names.len() == 0 {
        Seq::empty()
    } else {
        let rest = named_files(names.drop_last(), limit, name);
        if names.len() <= limit && names.last() == name {
            rest.push(names.len() as usize)
        } else {
            rest
        }
    }
}

/// The numbers (from 1) of the entries of `indices` equal to `num`.
pub open spec fn numbered_files(indices: Seq<i32>, num: i32) -> Seq<usize>
    decreases indices.len(),
{
    if indices.len() == 0 {
        Seq::empty()
    } else {
        let rest = numbered_files(indices.drop_last(), num);
        if indices.last() == num {
            rest.push(indices.len() as usize)
        } else {
            rest
        }
    }
}

/// Entry `i` of `v`, or -1 where there is none.
pub open spec fn entry_or_none(v: Seq<i32>, i: int) -> i32 {
    if 0 <= i < v.len() {
        v[i]
    } else {
        -1i32
    }
}

/// The numbers `k` from 1 to `n` of the files in chapter `chapter` and
/// section `section`.
pub open spec fn chapter_section_files(
    chapters: Seq<i32>,
    sections: Seq<i32>,
    n: nat,
    chapter: i32,
    section: i32,
) -> Seq<usize>
    decreases n,
{
    if n == 0 {
        Seq::empty()
    } else {
        let rest = chapter_section_files(chapters, sections, (n - 1) as nat, chapter, section);
        if entry_or_none(chapters, n - 1) == chapter && entry_or_none(sections, n - 1) == section {
            rest.push(n as usize)
        } else {
            rest
        }
    }
}

/// The numbers 1 to `n`.
pub open spec fn all_files(n: nat) -> Seq<usize> {
    Seq::new(n, |i: int| (i + 1) as usize)
}

/// The index of the first alphabetic character of `s`, or `s.len()`.
pub open spec fn first_alphabetic(s: Seq<char>) -> int
    decreases s.len(),
{
    if s.len() == 0 {
        0
    } else if is_alphabetic_char(s[0]) {
        0
    } else {
        1 + first_alphabetic(s.drop_first())
    }
}

/// The text before the first alphabetic character of `s`.
pub open spec fn first_piece(s: Seq<char>) -> Seq<char> {
    s.take(first_alphabetic(s))
}

/// The text between the first and the second alphabetic character of `s`
/// (or the end), where `s` has an alphabetic character.
pub open spec fn second_piece(s: Seq<char>) -> Option<Seq<char>> {
    let k = first_alphabetic(s);
    if k < s.len() {
        let t = s.skip(k + 1);
        Some(t.take(first_alphabetic(t)))
    } else {
        None
    }
}

/// The number in a text, or `default` where it is not one.
pub open spec fn number_or(text: Seq<char>, default: i32) -> i32 {
    match parse_i32_text(text) {
        Some(v) => v,
        None => default,
    }
}

/// The section number of an argument `s<number>`.
pub open spec fn section_number(name: Seq<char>) -> i32 {
    number_or(name.skip(1), 1)
}

/// The chapter number of an argument `c<number>` or `c<number>s<number>`.
pub open spec fn chapter_number(name: Seq<char>) -> i32 {
    number_or(first_piece(name.skip(1)), 1)
}

/// The section number of an argument `c<number>s<number>`, or -1 where there
/// is none.
pub open spec fn chapter_section_number(name: Seq<char>) -> i32 {
    match second_piece(name.skip(1)) {
        Some(p) => number_or(p, -1i32),
        None => -1i32,
    }
}

/// The files that an argument chooses by number: `s<n>` for section `n`,
/// `c<n>` for chapter `n`, and `c<n>s<m>` for section `m` of chapter `n`.
pub open spec fn files_by_number(name: Seq<char>, o: OutlineModel) -> Seq<usize> {
    if name.len() > 0 && name[0] == 's' {
        numbered_files(o.section_indices, section_number(name))
    } else if name.len() > 0 && name[0] == 'c' {
        if chapter_section_number(name) == -1i32 {
            numbered_files(o.chapter_indices, chapter_number(name))
        } else {
            chapter_section_files(
                o.chapter_indices,
                o.section_indices,
                o.files.len(),
                chapter_number(name),
                chapter_section_number(name),
            )
        }
    } else {
        Seq::empty()
    }
}

/// The numbers of the files that `name` chooses, tried in this order: the
/// files of the sections called `name`; the files of the chapters called
/// `name`; the files that `name` chooses by number; and, for `all`, every
/// file.
pub open spec fn range_from_name(name: Seq<char>, o: OutlineModel) -> Seq<usize> {
    let n = o.files.len() as int;
    let by_section = named_files(o.section_names, n, name);
    let by_chapter = named_files(o.chapter_names, n, name);
    let by_number = files_by_number(name, o);
    if by_section.len() > 0 {
        by_section
    } else if by_chapter.len() > 0 {
        by_chapter
    } else if by_number.len() > 0 {
        by_number
    } else if name == "all"@ {
        all_files(o.files.len())
    } else {
        Seq::empty()
    }
}

fn named_positions(names: &Vec<String>, limit: usize, name: &str) -> (v: Vec<usize>)
    ensures
        v@ == named_files(texts(names@), limit as int, name@),
{
    let mut v: Vec<usize> = Vec::new();
    let mut i: usize = 0;
    while i < names.len()
        invariant
            i <= names@.len(),
            v@ == named_files(texts(names@.take(i as int)), limit as int, name@),
        decreases names@.len() - i,
    {
        assert(texts(names@.take(i + 1)).drop_last() =~= texts(names@.take(i as int)));
        assert(texts(names@.take(i + 1)).last() == names@[i as int]@);
        if i + 1 <= limit && same_text(names[i].as_str(), name) {
            v.push(i + 1);
        }
        i += 1;
    }
    assert(names@.take(i as int) =~= names@);
    v
}

fn numbered_positions(indices: &Vec<i32>, num: i32) -> (v: Vec<usize>)
    ensures
        v@ == numbered_files(indices@, num),
{
    let mut v: Vec<usize> = Vec::new();
    let mut i: usize = 0;
    while i < indices.len()
        invariant
            i <= indices@.len(),
            v@ == numbered_files(indices@.take(i as int), num),
        decreases indices@.len() - i,
    {
        assert(indices@.take(i + 1).drop_last() =~= indices@.take(i as int));
        if indices[i] == num {
            v.push(i + 1);
        }
        i += 1;
    }
    assert(indices@.take(i as int) =~= indices@);
    v
}

fn chapter_section_positions(
    chapters: &Vec<i32>,
    sections: &Vec<i32>,
    n: usize,
    chapter: i32,
    section: i32,
) -> (v: Vec<usize>)
    ensures
        v@ == chapter_section_files(chapters@, sections@, n as nat, chapter, section),
{
    let mut v: Vec<usize> = Vec::new();
    let mut idx: usize = 0;
    while idx < n
        invariant
            idx <= n,
            v@ == chapter_section_files(chapters@, sections@, idx as nat, chapter, section),
        decreases n - idx,
    {
        let chap_idx: i32 = if idx < chapters.len() {
            chapters[idx]
        } else {
            -1
        };
        let sec_idx: i32 = if idx < sections.len() {
            sections[idx]
        } else {
            -1
        };
        if chap_idx == chapter && sec_idx == section {
            v.push(idx + 1);
        }
        idx += 1;
    }
    v
}

fn all_positions(n: usize) -> (v: Vec<usize>)
    ensures
        v@ == all_files(n as nat),
{
    let mut v: Vec<usize> = Vec::new();
    let mut idx: usize = 0;
    while idx < n
        invariant
            idx <= n,
            v@ == all_files(idx as nat),
        decreases n - idx,
    {
        v.push(idx + 1);
        idx += 1;
        assert(v@ =~= all_files(idx as nat));
    }
    v
}

proof fn lemma_first_alphabetic_is(s: Seq<char>, m: int)
    requires
        0 <= m <= s.len(),
        m < s.len() ==> is_alphabetic_char(s[m]),
        forall|j: int| 0 <= j < m ==> !is_alphabetic_char(s[j]),
    ensures
        first_alphabetic(s) == m,
    decreases m,
{
    if m > 0 {
        assert forall|j: int| 0 <= j < m - 1 implies !is_alphabetic_char(s.drop_first()[j]) by {
            assert(s.drop_first()[j] == s[j + 1]);
        }
        lemma_first_alphabetic_is(s.drop_first(), m - 1);
    }
}

/// The index of the first alphabetic character of `cs[from..]`, or `cs.len()`.
fn next_alphabetic(cs: &Vec<char>, from: usize) -> (k: usize)
    requires
        from <= cs@.len(),
    ensures
        from <= k <= cs@.len(),
        k - from == first_alphabetic(cs@.skip(from as int)),
{
    let mut k = from;
    while k < cs.len() && !is_alphabetic(cs[k])
        invariant
            from <= k <= cs@.len(),
            forall|j: int| from <= j < k ==> !is_alphabetic_char(cs@[j]),
        decreases cs@.len() - k,
    {
        k += 1;
    }
    proof {
        let t = cs@.skip(from as int);
        assert forall|j: int| 0 <= j < k - from implies !is_alphabetic_char(t[j]) by {
            assert(t[j] == cs@[from + j]);
        }
        lemma_first_alphabetic_is(t, k - from);
    }
    k
}

/// The numbers of the files that `name` chooses (see `range_from_name`).
pub fn generate_range_from_name(name: &str, outline: &Outline) -> (v: Vec<usize>)
    ensures
        v@ == range_from_name(name@, outline@),
{
    let ghost o = outline@;
    let num_files = outline.files.len();
    let by_section = named_positions(&outline.section_names, num_files, name);
    if by_section.len() > 0 {
        return by_section;
    }
    let by_chapter = named_positions(&outline.chapter_names, num_files, name);
    if by_chapter.len() > 0 {
        return by_chapter;
    }
    let mut by_number: Vec<usize> = Vec::new();
    let n = name.unicode_len();
    if begins_with_char(name, 's') {
        let num = name.substring_char(1, n);
        let num_actual: i32 = match parse_i32(num) {
            Some(v) => v,
            None => 1,
        };
        assert(num@ == name@.skip(1));
        by_number = numbered_positions(&outline.section_indices, num_actual);
    } else if begins_with_char(name, 'c') {
        let rest = name.substring_char(1, n);
        assert(rest@ == name@.skip(1));
        let cs = chars_of(rest);
        let k1 = next_alphabetic(&cs, 0);
        assert(cs@.skip(0) =~= cs@);
        let first = rest.substring_char(0, k1);
        assert(first@ =~= first_piece(rest@));
        let num_one: i32 = match parse_i32(first) {
            Some(v) => v,
            None => 1,
        };
        let num_two: i32 = if k1 < cs.len() {
            let k2 = next_alphabetic(&cs, k1 + 1);
            let second = rest.substring_char(k1 + 1, k2);
            proof {
                let t = rest@.skip(k1 + 1);
                assert(t =~= cs@.skip(k1 + 1));
                assert(second@ =~= t.take(first_alphabetic(t)));
            }
            match parse_i32(second) {
                Some(v) => v,
                None => -1,
            }
        } else {
            -1
        };
        if num_two == -1 {
            by_number = numbered_positions(&outline.chapter_indices, num_one);
        } else {
            by_number = chapter_section_positions(
                &outline.chapter_indices,
                &outline.section_indices,
                num_files,
                num_one,
                num_two,
            );
        }
    }
    if by_number.len() > 0 {
        return by_number;
    }
    if same_text(name, "all") {
        return all_positions(num_files);
    }
    Vec::new()
}

// ---------------------------------------------------------------------------
// Laws of ranges by name
// ---------------------------------------------------------------------------

/// The numbers of `v` increase strictly and lie between 1 and `n`.
pub open spec fn valid_file_numbers(v: Seq<usize>, n: int) -> bool {
    &&& forall|i: int, j: int| 0 <= i < j < v.len() ==> v[i] < v[j]
    &&& forall|i: int| 0 <= i < v.len() ==> 1 <= #[trigger] v[i] <= n
}

proof fn lemma_valid_weaken(v: Seq<usize>, n1: int, n2: int)
    requires
        valid_file_numbers(v, n1),
        n1 <= n2,
    ensures
        valid_file_numbers(v, n2),
{
}

proof fn lemma_valid_push(rest: Seq<usize>, k: int, n: int)
    requires
        valid_file_numbers(rest, k - 1),
        1 <= k <= n,
        k <= usize::MAX,
    ensures
        valid_file_numbers(rest.push(k as usize), n),
{
    let v = rest.push(k as usize);
    assert forall|i: int, j: int| 0 <= i < j < v.len() implies v[i] < v[j] by {
        if j < rest.len() {
            assert(v[i] == rest[i] && v[j] == rest[j]);
        } else {
            assert(v[i] == rest[i]);
            assert(1 <= rest[i] <= k - 1);
        }
    }
    assert forall|i: int| 0 <= i < v.len() implies 1 <= #[trigger] v[i] <= n by {
        if i < rest.len() {
            assert(v[i] == rest[i]);
        }
    }
}

proof fn lemma_named_files_valid(names: Seq<Seq<char>>, limit: int, name: Seq<char>)
    requires
        names.len() <= usize::MAX,
    ensures
        valid_file_numbers(named_files(names, limit, name), names.len() as int),
        valid_file_numbers(named_files(names, limit, name), limit),
    decreases names.len(),
{
    if names.len() > 0 {
        let rest = named_files(names.drop_last(), limit, name);
        lemma_named_files_valid(names.drop_last(), limit, name);
        if names.len() <= limit && names.last() == name {
            lemma_valid_push(rest, names.len() as int, names.len() as int);
            lemma_valid_push(rest, names.len() as int, limit);
        } else {
            lemma_valid_weaken(rest, names.len() - 1, names.len() as int);
        }
    }
}

proof fn lemma_numbered_files_valid(indices: Seq<i32>, num: i32)
    requires
        indices.len() <= usize::MAX,
    ensures
        valid_file_numbers(numbered_files(indices, num), indices.len() as int),
    decreases indices.len(),
{
    if indices.len() > 0 {
        let rest = numbered_files(indices.drop_last(), num);
        lemma_numbered_files_valid(indices.drop_last(), num);
        if indices.last() == num {
            lemma_valid_push(rest, indices.len() as int, indices.len() as int);
        } else {
            lemma_valid_weaken(rest, indices.len() - 1, indices.len() as int);
        }
    }
}

proof fn lemma_chapter_section_files_valid(
    chapters: Seq<i32>,
    sections: Seq<i32>,
    n: nat,
    chapter: i32,
    section: i32,
)
    requires
        n <= usize::MAX,
    ensures
        valid_file_numbers(chapter_section_files(chapters, sections, n, chapter, section), n as int),
    decreases n,
{
    if n > 0 {
        let rest = chapter_section_files(chapters, sections, (n - 1) as nat, chapter, section);
        lemma_chapter_section_files_valid(chapters, sections, (n - 1) as nat, chapter, section);
        if entry_or_none(chapters, n - 1) == chapter && entry_or_none(sections, n - 1) == section {
            lemma_valid_push(rest, n as int, n as int);
        } else {
            lemma_valid_weaken(rest, n - 1, n as int);
        }
    }
}

/// For an outline with one chapter and one section number per file, the
/// numbers that any name chooses are file numbers (between 1 and the number
/// of files), in increasing order without repetition.
pub proof fn lemma_range_from_name_valid(name: Seq<char>, o: OutlineModel)
    requires
        o.chapter_indices.len() == o.files.len(),
        o.section_indices.len() == o.files.len(),
        o.files.len() <= usize::MAX,
        o.section_names.len() <= usize::MAX,
        o.chapter_names.len() <= usize::MAX,
    ensures
        valid_file_numbers(range_from_name(name, o), o.files.len() as int),
{
    assert forall|i: int| 0 <= i < all_files(o.files.len()).len() implies 1 <= #[trigger] all_files(
        o.files.len(),
    )[i] <= o.files.len() by {}
    let n = o.files.len() as int;
    lemma_named_files_valid(o.section_names, n, name);
    lemma_named_files_valid(o.chapter_names, n, name);
    lemma_numbered_files_valid(o.section_indices, section_number(name));
    lemma_numbered_files_valid(o.chapter_indices, chapter_number(name));
    lemma_chapter_section_files_valid(
        o.chapter_indices,
        o.section_indices,
        o.files.len(),
        chapter_number(name),
        chapter_section_number(name),
    );
}

/// `all` chooses every file, where no section or chapter is called `all`.
pub proof fn lemma_all_chooses_every_file(o: OutlineModel)
    requires
        forall|i: int| 0 <= i < o.section_names.len() ==> o.section_names[i] != "all"@,
        forall|i: int| 0 <= i < o.chapter_names.len() ==> o.chapter_names[i] != "all"@,
    ensures
        range_from_name("all"@, o) == all_files(o.files.len()),
{
    lemma_no_named_files(o.section_names, o.files.len() as int, "all"@);
    lemma_no_named_files(o.chapter_names, o.files.len() as int, "all"@);
    reveal_strlit("all");
}

proof fn lemma_no_named_files(names: Seq<Seq<char>>, limit: int, name: Seq<char>)
    requires
        forall|i: int| 0 <= i < names.len() ==> names[i] != name,
    ensures
        named_files(names, limit, name).len() == 0,
    decreases names.len(),
{
    if names.len() > 0 {
        assert(names.last() == names[names.len() - 1]);
        lemma_no_named_files(names.drop_last(), limit, name);
    }
}

// ---------------------------------------------------------------------------
// Ranges given by number
// ---------------------------------------------------------------------------

/// The numbers that the `number_range` crate reads from `text` (with `,`
/// between items and `-` inside a range), or `None` where it rejects the
/// text.
pub uninterp spec fn number_range_values(text: Seq<char>) -> Option<Seq<usize>>;

/// `c` is read as part of a number: a decimal digit, or the separator `_`
/// that may group digits.
pub open spec fn is_number_char(c: char) -> bool {
    ('0' <= c && c <= '9') || c == '_'
}

/// The value of the digits read so far in the number that runs up to (not
/// including) position `j` of `s`; a `_` adds no digit, and any other
/// character ends a number.
pub open spec fn run_value(s: Seq<char>, j: int) -> int
    decreases j,
{
    if j <= 0 || j > s.len() || !is_number_char(s[j - 1]) {
        0
    } else if s[j - 1] == '_' {
        run_value(s, j - 1)
    } else {
        run_value(s, j - 1) * 10 + (s[j - 1] as int - '0' as int)
    }
}

/// Every number written in `s` is at most `usize::MAX / 2`: at no position
/// do the digits read so far exceed it.
pub open spec fn numbers_fit(s: Seq<char>) -> bool {
    forall|j: int| 0 <= j <= s.len() ==> #[trigger] run_value(s, j) <= usize::MAX / 2
}

/// Whether every number written in `text` is at most `usize::MAX / 2` (see
/// `numbers_fit`).
pub fn numbers_fit_in(text: &str) -> (r: bool)
    ensures
        r == numbers_fit(text@),
{
    let cs = chars_of(text);
    let n = cs.len();
    let half: u128 = (usize::MAX / 2) as u128;
    let mut v: u128 = 0;
    let mut j: usize = 0;
    assert(run_value(text@, 0) == 0);
    while j < n
        invariant
            n == cs@.len(),
            cs@ == text@,
            j <= n,
            half == usize::MAX / 2,
            v == run_value(text@, j as int),
            forall|k: int| 0 <= k <= j ==> #[trigger] run_value(text@, k) <= usize::MAX / 2,
        decreases n - j,
    {
        let c = cs[j];
        if '0' <= c && c <= '9' {
            let d: u32 = (c as u32) - ('0' as u32);
            v = v * 10 + (d as u128);
            assert(v == run_value(text@, j + 1));
            if v > half {
                return false;
            }
        } else if c == '_' {
            assert(v == run_value(text@, j + 1));
        } else {
            v = 0;
            assert(v == run_value(text@, j + 1));
        }
        j += 1;
    }
    true
}

/// Calls `NumberRangeOptions::default().with_range_sep('-').parse(text)` of
/// the `number_range` crate and collects the numbers of the range it gives.
/// The contract names the outcome `number_range_values(text@)`: `None`
/// where the crate rejects the text, and the numbers otherwise. The crate
/// reads each number (after trimming spaces and dropping `_`) with
/// `usize::from_str`, so every number it reads is one that `numbers_fit`
/// bounds; with start, step and end at most `usize::MAX / 2`, the addition
/// of a step to a value of a range never overflows, which the `requires`
/// ensures. Left unsaid: the crate's grammar, and that collecting a very
/// long range can exhaust memory.
#[verifier::external_body]
fn parse_number_range(text: &str) -> (r: Option<Vec<usize>>)
    requires
        numbers_fit(text@),
    ensures
        match r {
            Some(v) => number_range_values(text@) == Some(v@),
            None => number_range_values(text@) is None,
        },
{
    match NumberRangeOptions::<usize>::default().with_range_sep('-').parse(text) {
        Ok(numbers) => Some(numbers.collect()),
        Err(_) => None,
    }
}

/// The files of a range argument, once the numbers have been read from it:
/// the numbers where the text was a range of numbers, and otherwise the
/// files that the text chooses by name.
pub fn choose_range(parsed: Option<Vec<usize>>, range: &str, outline: &Outline) -> (v: Vec<
    usize,
>)
    ensures
        v@ == match parsed {
            Some(p) => p@,
            None => range_from_name(range@, outline@),
        },
{
    match parsed {
        Some(p) => p,
        None => generate_range_from_name(range, outline),
    }
}

/// The files of a range argument: a list of numbers and ranges such as
/// `1-3,6`, or else a name (see `range_from_name`). The numbers written in
/// it must be at most `usize::MAX / 2`; a larger one can make the range
/// overflow.
pub fn resolve_range(range: &str, outline: &Outline) -> (v: Vec<usize>)
    requires
        numbers_fit(range@),
    ensures
        v@ == match number_range_values(range@) {
            Some(p) => p,
            None => range_from_name(range@, outline@),
        },
{
    let parsed = parse_number_range(range);
    choose_range(parsed, range, outline)
}

// ---------------------------------------------------------------------------
// From options to a command
// ---------------------------------------------------------------------------

/// The value stored under `key`, or `default`.
pub open spec fn value_or(e: Entries, key: Seq<char>, default: Seq<char>) -> Seq<char> {
    match lookup(e, key) {
        Some(v) => v,
        None => default,
    }
}

/// The class options that the options give: the value of `-o`, where it is
/// given.
pub open spec fn class_options_given(e: Entries) -> Seq<Seq<char>> {
    match lookup(e, CLASS_OPTION@) {
        Some(v) => seq![v],
        None => Seq::empty(),
    }
}

fn class_options_of(options: &ArgMap) -> (v: Vec<String>)
    ensures
        texts(v@) == class_options_given(options@),
{
    let mut v: Vec<String> = Vec::new();
    match options.get(CLASS_OPTION) {
        Some(o) => {
            v.push(o.clone());
            assert(texts(v@) =~= seq![o@]);
        },
        None => {
            assert(texts(v@) =~= Seq::<Seq<char>>::empty());
        },
    }
    v
}

/// The command for `outline` that the options ask for: the engine of `-e`
/// (by default `pdflatex`), the output name of `-j` (by default `job`), the
/// files of the range `-r`, the class option of `-o`, and quiet mode where
/// `-q` is given. Where no range is given there is no command. The numbers
/// written in the range must be at most `usize::MAX / 2` (see
/// `resolve_range`).
pub fn build_command(outline: Outline, options: &ArgMap) -> (r: Option<CMD>)
    requires
        lookup(options@, RANGE_ARG@) matches Some(range) ==> numbers_fit(range),
    ensures
        r is None <==> lookup(options@, RANGE_ARG@) is None,
        r matches Some(cmd) ==> {
            &&& cmd.engine == engine_named(value_or(options@, ENGINE_ARG@, DEFAULT_ENGINE@))
            &&& cmd.jobname@ == value_or(options@, JOBNAME_ARG@, DEFAULT_JOBNAME@)
            &&& cmd.range@ == match number_range_values(lookup(options@, RANGE_ARG@)->0) {
                Some(p) => p,
                None => range_from_name(lookup(options@, RANGE_ARG@)->0, outline@),
            }
            &&& cmd.outline == outline
            &&& texts(cmd.class_options@) == class_options_given(options@)
            &&& cmd.quiet == has_key(options@, QUIET_ARG@)
        },
{
    let proposed_engine: &str = match options.get(ENGINE_ARG) {
        Some(s) => s.as_str(),
        None => DEFAULT_ENGINE,
    };
    let jobname: &str = match options.get(JOBNAME_ARG) {
        Some(s) => s.as_str(),
        None => DEFAULT_JOBNAME,
    };
    let range: &str = match options.get(RANGE_ARG) {
        Some(s) => s.as_str(),
        None => {
            return None;
        },
    };
    let rng = resolve_range(range, &outline);
    let class_options = class_options_of(options);
    let mut cmd = create_command(proposed_engine, jobname, rng, outline, class_options);
    if options.contains_key(QUIET_ARG) {
        cmd.quiet = true;
    }
    Some(cmd)
}

/// What to do with a command.
pub enum Mode {
    /// Show the command, do not compile.
    DryRun,
    /// Compile the document.
    Run,
}

/// A dry run where `-d` is given, and otherwise a run.
pub fn compile_mode(options: &ArgMap) -> (m: Mode)
    ensures
        m == (if has_key(options@, DRYRUN_ARG@) {
            Mode::DryRun
        } else {
            Mode::Run
        }),
{
    if options.contains_key(DRYRUN_ARG) {
        Mode::DryRun
    } else {
        Mode::Run
    }
}

/// Whether the auxiliary files are to be removed: they are where `-c` is
/// given.
pub fn clean_requested(options: &ArgMap) -> (r: bool)
    ensures
        r == has_key(options@, CLEAN_ARG@),
{
    options.contains_key(CLEAN_ARG)
}

} // verus!

verus! {

proof fn lemma_selected_prefix_of_all(n: nat, e: int)
    requires
        1 <= n <= usize::MAX,
        0 <= e <= n,
    ensures
        tex::selected(all_files(n), 0, e) == Seq::new(e as nat, |i: int| i),
    decreases e,
{
    let r = all_files(n);
    if e > 0 {
        lemma_selected_prefix_of_all(n, e - 1);
        assert(r[e - 1] == e as usize);
        assert(r.contains(e as usize));
        assert(Seq::new((e - 1) as nat, |i: int| i).push(e - 1) =~= Seq::new(e as nat, |i: int| i));
    } else {
        assert(tex::selected(r, 0, 0) =~= Seq::new(0, |i: int| i));
    }
}

/// With the range of all the files (as `all` chooses it), every file is
/// compiled, each once and in order.
pub proof fn lemma_full_range_compiles_every_file(n: nat)
    requires
        1 <= n <= usize::MAX,
    ensures
        tex::selected(
            all_files(n),
            tex::range_start(all_files(n)),
            tex::range_end(all_files(n)),
        ) == Seq::new(n, |i: int| i),
{
    let r = all_files(n);
    assert(r[0] == 1usize);
    assert(r.last() == n as usize);
    lemma_selected_prefix_of_all(n, n as int);
}

proof fn lemma_named_files_contains(names: Seq<Seq<char>>, limit: int, name: Seq<char>, k: int)
    requires
        names.len() <= usize::MAX,
        0 <= k <= usize::MAX,
    ensures
        named_files(names, limit, name).contains(k as usize) <==> (1 <= k <= names.len() && k
            <= limit && names[k - 1] == name),
    decreases names.len(),
{
    if names.len() > 0 {
        let init = names.drop_last();
        let rest = named_files(init, limit, name);
        lemma_named_files_contains(init, limit, name, k);
        lemma_named_files_valid(init, limit, name);
        let n = names.len() as int;
        if 1 <= k < n {
            assert(init[k - 1] == names[k - 1]);
        }
        if n <= limit && names.last() == name {
            let r = rest.push(n as usize);
            assert(r[rest.len() as int] == n as usize);
            if r.contains(k as usize) && k != n {
                let j = choose|j: int| 0 <= j < r.len() && r[j] == k as usize;
                assert(rest[j] == k as usize);
            }
            if rest.contains(k as usize) {
                let j = choose|j: int| 0 <= j < rest.len() && rest[j] == k as usize;
                assert(r[j] == k as usize);
            }
        } else {
            if rest.contains(k as usize) {
                let j = choose|j: int| 0 <= j < rest.len() && rest[j] == k as usize;
                assert(1 <= rest[j] <= init.len());
            }
        }
    }
}

/// Where some file's section is called `name`, the files that `name`
/// chooses are exactly those whose section is called `name`: file `k` (from
/// 1) is chosen if and only if it exists and its section name is `name`.
pub proof fn lemma_section_name_chooses_its_files(name: Seq<char>, o: OutlineModel)
    requires
        o.files.len() <= usize::MAX,
        o.section_names.len() <= usize::MAX,
        exists|k: int|
            1 <= k <= o.files.len() && k <= o.section_names.len() && #[trigger] o.section_names[k
                - 1] == name,
    ensures
        forall|k: int|
            0 <= k <= usize::MAX ==> (#[trigger] range_from_name(name, o).contains(k as usize) <==> (1
                <= k <= o.files.len() && k <= o.section_names.len() && o.section_names[k - 1]
                == name)),
{
    let n = o.files.len() as int;
    let w = choose|k: int|
        1 <= k <= o.files.len() && k <= o.section_names.len() && #[trigger] o.section_names[k - 1]
            == name;
    lemma_named_files_contains(o.section_names, n, name, w);
    assert(named_files(o.section_names, n, name).len() > 0);
    assert forall|k: int|
        0 <= k <= usize::MAX implies (#[trigger] range_from_name(name, o).contains(k as usize) <==> (1
            <= k <= o.files.len() && k <= o.section_names.len() && o.section_names[k - 1]
            == name)) by {
        lemma_named_files_contains(o.section_names, n, name, k);
    }
}

/// The engine is `latex` exactly when the proposed name is `latex`; any
/// other name gives `pdflatex`.
pub proof fn lemma_engine_named(proposed: Seq<char>)
    ensures
        (engine_named(proposed) == Engine::LATEX) <==> (proposed == "latex"@),
        (engine_named(proposed) == Engine::PDFLATEX) <==> (proposed != "latex"@),
{
}

} // verus!
