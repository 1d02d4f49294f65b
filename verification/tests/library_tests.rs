use trex::compile::tex::{auxiliary_files, can_write_content, get_document_content, record_hash, recorded_files};
use trex::compile::{
    build_command, choose_range, clean_requested, compile_mode, create_command,
    generate_range_from_name, numbers_fit_in, resolve_range, Engine, Mode, CMD,
};
use trex::config::{self, Outline};
use trex::parse_args::{self, ArgMap};
use trex::text::{bool_string, decimal_text, decimal_usize, is_whitespace, parse_i32, same_text};
use trex::utils::print;
use trex::utils::stack::TwoStack;
use trex::{plan_run, Step};

const SMALL_CONF: &str = "preamble: pre.tex
class: article
chapter: One
section: A
file: a1
file: a2
section: B
file: b1
chapter: Two
section: C
file: c1
";

fn small() -> Outline {
    config::read_contents(Some(String::from(SMALL_CONF))).unwrap()
}

fn options(pairs: &[(&str, &str)]) -> ArgMap {
    let mut m = ArgMap::new();
    for (k, v) in pairs {
        m.insert(k.to_string(), v.to_string());
    }
    m
}

#[test]
fn decimal_text_of_numbers() {
    assert_eq!(decimal_text(0), "0");
    assert_eq!(decimal_text(7), "7");
    assert_eq!(decimal_text(-1), "-1");
    assert_eq!(decimal_text(1203), "1203");
    assert_eq!(decimal_text(i32::MAX), "2147483647");
    assert_eq!(decimal_text(i32::MIN), "-2147483648");
}

#[test]
fn parse_i32_like_from_str() {
    for s in ["0", "12", "+5", "-7", "007", "-2147483648", "2147483647", "", "-", "+",
              "2147483648", "-2147483649", "1a", " 1", "1_000", "99999999999999999999"] {
        assert_eq!(parse_i32(s), s.parse::<i32>().ok(), "{:?}", s);
    }
}

#[test]
fn same_text_compares_characters() {
    assert!(same_text("abc", "abc"));
    assert!(!same_text("abc", "abd"));
    assert!(!same_text("ab", "abc"));
    assert!(same_text("", ""));
}

#[test]
fn range_by_numbers_uses_number_range() {
    let o = small();
    assert_eq!(resolve_range("1-3,4", &o), vec![1, 2, 3, 4]);
    assert_eq!(resolve_range("2", &o), vec![2]);
    assert_eq!(resolve_range("3-4", &o), vec![3, 4]);
}

#[test]
fn range_by_name_when_not_numbers() {
    let o = small();
    assert_eq!(resolve_range("B", &o), vec![3]);
    assert_eq!(resolve_range("Two", &o), vec![4]);
    assert_eq!(resolve_range("c1s2", &o), vec![3]);
    assert_eq!(resolve_range("c2", &o), vec![4]);
    assert_eq!(resolve_range("c1", &o), vec![1, 2, 3]);
    assert_eq!(resolve_range("all", &o), vec![1, 2, 3, 4]);
    assert_eq!(resolve_range("nothing", &o), Vec::<usize>::new());
}

#[test]
fn choose_range_prefers_parsed_numbers() {
    let o = small();
    assert_eq!(choose_range(Some(vec![9, 1]), "B", &o), vec![9, 1]);
    assert_eq!(choose_range(None, "B", &o), vec![3]);
}

#[test]
fn range_names_edge_cases() {
    let o = small();
    // "s" and "c" without a number mean section or chapter 1.
    assert_eq!(generate_range_from_name("s", &o), vec![1, 2, 4]);
    assert_eq!(generate_range_from_name("c", &o), vec![1, 2, 3]);
    // Any alphabetic character splits chapter and section.
    assert_eq!(generate_range_from_name("c2x1", &o), vec![4]);
    assert_eq!(generate_range_from_name("c1s9", &o), Vec::<usize>::new());
    assert_eq!(generate_range_from_name("", &o), Vec::<usize>::new());
    // A section called "all" wins over the keyword.
    let o2 = config::read_contents(Some(String::from("section: all\nfile: x\nfile: y\n"))).unwrap();
    assert_eq!(generate_range_from_name("all", &o2), vec![1, 2]);
}

#[test]
fn build_command_from_options() {
    let opts = options(&[("-r", "2-3"), ("-e", "latex"), ("-j", "notes"), ("-q", "true"),
                         ("-o", "12pt"), ("wide", "class_option")]);
    let cmd = build_command(small(), &opts).unwrap();
    assert!(matches!(cmd.engine, Engine::LATEX));
    assert_eq!(cmd.jobname, "notes");
    assert_eq!(cmd.range, vec![2, 3]);
    assert!(cmd.quiet);
    assert_eq!(cmd.class_options, vec![String::from("12pt")]);
    assert_eq!(cmd.outline.files.len(), 4);
}

#[test]
fn build_command_defaults_and_missing_range() {
    let cmd = build_command(small(), &options(&[("-r", "Two")])).unwrap();
    assert!(matches!(cmd.engine, Engine::PDFLATEX));
    assert_eq!(cmd.jobname, "job");
    assert_eq!(cmd.range, vec![4]);
    assert!(!cmd.quiet);
    assert!(cmd.class_options.is_empty());
    assert!(build_command(small(), &options(&[("-e", "latex")])).is_none());
}

#[test]
fn modes_and_cleaning() {
    assert!(matches!(compile_mode(&options(&[("-d", "true")])), Mode::DryRun));
    assert!(matches!(compile_mode(&options(&[("-r", "1")])), Mode::Run));
    assert!(clean_requested(&options(&[("-c", "true")])));
    assert!(clean_requested(&options(&[("-c", "true"), ("-e", "latex")])));
    assert!(!clean_requested(&options(&[("-e", "x")])));
}

#[test]
fn plan_of_a_run() {
    assert!(matches!(plan_run(&options(&[("-h", "true"), ("-c", "true")])), Step::ShowHelp));
    match plan_run(&options(&[("-c", "true"), ("-f", "my.conf")])) {
        Step::Clean { config } => assert_eq!(config, "my.conf"),
        _ => panic!("expected cleaning"),
    }
    match plan_run(&parse_args::parse(vec![String::from("trex"), String::from("-v")])) {
        Step::Compile { config, verbose } => {
            assert_eq!(config, "trex.conf");
            assert!(verbose);
        },
        _ => panic!("expected compiling"),
    }
}

#[test]
fn command_list_of_latex_and_empty_jobname() {
    let mut c = create_command("latex", "", vec![1], Outline::new(), Vec::new());
    let l = c.command_list();
    assert_eq!(l, vec![String::from("latex"), String::from("-jobname=out")]);
    c.engine = Engine::PDFLATEX;
    c.jobname = String::from("x");
    assert_eq!(c.command_list()[1], "-jobname=x");
    assert!(!c.quiet);
}

#[test]
fn get_code_drops_quotes() {
    let mut c = CMD::new();
    c.outline = small();
    c.range = vec![4];
    let code = c.get_code();
    assert_eq!(code, "\\input{pre.tex}\\begin{document}\\setcounter{chapter}{1}\\chapter{Two}\
        \\setcounter{section}{0}\\section{C}\\input{c1}\\end{document}");
    let tex = c.get_tex_code();
    assert_eq!(tex, format!("\"{}\"", code));
    c.outline.files[3] = String::from("a\"b");
    assert!(!c.get_code().contains('"'));
    c.engine = Engine::LATEX;
    assert_eq!(c.get_code(), "");
}

#[test]
fn new_command_defaults() {
    let c = CMD::new();
    assert!(matches!(c.engine, Engine::PDFLATEX));
    assert_eq!(c.jobname, "out");
    assert!(c.range.is_empty());
    assert!(c.class_options.is_empty());
}

#[test]
fn content_is_empty_when_a_section_position_is_too_large() {
    // A section heading with no file after it: the largest section position
    // (1) is greater than the number of files (0), so nothing is written,
    // not even the bibliography.
    let o = config::read_contents(Some(String::from("section: S\nbib_style: plain\n"))).unwrap();
    assert_eq!(get_document_content(&vec![1], &o), "");
}

#[test]
fn content_of_the_minimal_configuration() {
    // One section and one file: the section heading, then the file.
    let o = config::read_contents(None).unwrap();
    assert_eq!(get_document_content(&vec![1], &o),
        "\\setcounter{section}{0}\\section{Section Label}\\input{file-1.tex}");
    let o2 = config::read_contents(Some(String::from(
        "section: S\nfile: only\nbib_style: plain\nbibliography: refs\n"))).unwrap();
    assert_eq!(get_document_content(&vec![1], &o2),
        "\\setcounter{section}{0}\\section{S}\\input{only}\\bibliographystyle{plain}\\bibliography{refs}");
}

#[test]
fn content_of_unsorted_and_sparse_ranges() {
    let o = small();
    // From file 1 up to file 4, only the numbers in the range are compiled.
    assert_eq!(get_document_content(&vec![1, 4], &o),
        "\\setcounter{chapter}{0}\\chapter{One}\\setcounter{section}{0}\\section{A}\\input{a1}\
         \\setcounter{chapter}{1}\\chapter{Two}\\setcounter{section}{0}\\section{C}\\input{c1}");
    // A range whose last number is below its first compiles nothing.
    assert_eq!(get_document_content(&vec![3, 1], &o), "");
}

#[test]
fn full_range_compiles_every_file() {
    let o = small();
    let range = generate_range_from_name("all", &o);
    let content = get_document_content(&range, &o);
    for f in ["a1", "a2", "b1", "c1"] {
        assert_eq!(content.matches(&format!("\\input{{{}}}", f)).count(), 1);
    }
    assert!(content.find("\\input{a2}").unwrap() < content.find("\\input{b1}").unwrap());
}

#[test]
fn auxiliary_files_are_selected() {
    let names: Vec<String> = ["doc.aux", "doc.tex", "doc.log", "x.toc", "refs.bbl", "refs.blg",
        "aux", "notes.pdf", ".log"].iter().map(|s| s.to_string()).collect();
    assert_eq!(auxiliary_files(&names), vec![String::from("doc.aux"), String::from("doc.log"),
        String::from("x.toc"), String::from("refs.bbl"), String::from("refs.blg"),
        String::from(".log")]);
}

#[test]
fn recorded_file_names() {
    let (aux, bbl) = recorded_files(&String::from("lecture"));
    assert_eq!(aux, "lecture.aux");
    assert_eq!(bbl, "lecture.bbl");
}

#[test]
fn hashes_are_recorded_when_present() {
    let mut s: TwoStack<u64> = TwoStack::new();
    record_hash(&mut s, None);
    assert_eq!(s.len, 0);
    record_hash(&mut s, Some(7));
    record_hash(&mut s, Some(8));
    assert_eq!(s.len, 2);
    assert_eq!(s.one, Some(8));
    assert_eq!(s.two, Some(7));
}

#[test]
fn coloured_messages() {
    let msg = vec![String::from("a"), String::from("b")];
    assert_eq!(print::info("Note:", &msg), "\u{1b}[1;34mNote: \u{1b}[0;00mab");
    assert_eq!(print::warning("W", &msg), "\u{1b}[1;33mW \u{1b}[0;00mab");
    assert_eq!(print::error("E", &Vec::new()), "\u{1b}[1;31mE \u{1b}[0;00m");
}

#[test]
fn content_readability() {
    let o = small();
    assert!(can_write_content(&vec![1, 2, 3, 4], &o));
    assert!(!can_write_content(&vec![], &o));
    assert!(!can_write_content(&vec![0, 1], &o));
    assert!(!can_write_content(&vec![1, 5], &o));
    // The range reaches file 9, past the last file.
    assert!(!can_write_content(&vec![1, 9], &o));
    let mut o2 = small();
    o2.chapter_indices[0] = i32::MIN;
    assert!(!can_write_content(&vec![1], &o2));
    assert!(can_write_content(&vec![2], &o2));
    // With too large a section position nothing is read at all.
    let o3 = config::read_contents(Some(String::from("section: S\n"))).unwrap();
    assert!(can_write_content(&vec![7], &o3));
    // A section heading before the only file is not too large.
    let o4 = config::read_contents(Some(String::from("section: S\nfile: only\n"))).unwrap();
    assert!(!can_write_content(&vec![7], &o4));
    assert!(can_write_content(&vec![1], &o4));
}

#[test]
fn whitespace_is_the_white_space_property() {
    for c in (0u32..=0x10FFFF).filter_map(char::from_u32) {
        assert_eq!(is_whitespace(c), c.is_whitespace(), "{:?}", c);
    }
}

#[test]
fn trimming_removes_unicode_spaces() {
    let o = config::read_contents(Some(String::from(
        "\u{3000}\tfile: x\u{a0} \r\n  section: S\u{2003}\nfile: y"))).unwrap();
    assert_eq!(o.files, vec![String::from("x"), String::from("y")]);
    assert_eq!(o.section_names[1], "S");
}

#[test]
fn numbers_that_fit() {
    assert!(numbers_fit_in("1-3,6-9,11"));
    assert!(numbers_fit_in("chapter 1"));
    assert!(numbers_fit_in(""));
    assert!(numbers_fit_in("9223372036854775807"));
    assert!(numbers_fit_in("9_223_372_036_854_775_807"));
    assert!(!numbers_fit_in("9223372036854775808"));
    assert!(!numbers_fit_in("0-10000000000000000000-18446744073709551615"));
    assert!(!numbers_fit_in("18446744073709551615-18446744073709551615"));
    assert!(!numbers_fit_in("c99999999999999999999"));
}

#[test]
fn number_ranges_with_steps_and_separators() {
    let o = small();
    assert_eq!(resolve_range("1-2-4", &o), vec![1, 3]);
    assert_eq!(resolve_range("1_0", &o), vec![10]);
    assert_eq!(resolve_range(" 2 , 4", &o), vec![2, 4]);
    assert_eq!(resolve_range("4-2", &o), Vec::<usize>::new());
}

#[test]
fn lists_and_numbers_as_debug_writes_them() {
    assert_eq!(decimal_usize(0), "0");
    assert_eq!(decimal_usize(usize::MAX), usize::MAX.to_string());
    assert_eq!(bool_string(true), "true");
    assert_eq!(bool_string(false), "false");
    assert_eq!(print::usize_list(&vec![1, 0, 22]), format!("{:?}", vec![1usize, 0, 22]));
    assert_eq!(print::i32_list(&vec![-3, 0, 7]), format!("{:?}", vec![-3i32, 0, 7]));
    assert_eq!(print::i32_list(&vec![]), "[]");
    let names = vec![String::from("a \"b\""), String::new(), String::from("tab\there\\")];
    assert_eq!(print::string_list(&names), format!("{:?}", names));
}

#[test]
fn outline_description_as_verbose_mode_shows_it() {
    let o = config::read_contents(None).unwrap();
    let expected = format!(
        "preamble: {}\nNumber of Sections: {}\nhandle_subsections: {}\n\nchapter positions: {:?}\
         \nchapter names: {:?}\nchapter indices: {:?}\nsection positions: {:?}\
         \nsection names: {:?}\nsection indices: {:?}\nsubsection indices: {:?}",
        o.preamble, o.section_positions.len(), o.handle_subsections, o.chapter_positions,
        o.chapter_names, o.chapter_indices, o.section_positions, o.section_names,
        o.section_indices, o.subsection_indices);
    assert_eq!(o.describe(), expected);
    assert!(o.describe().starts_with("preamble: preamble.tex\nNumber of Sections: 2\n"));
}

#[test]
fn command_description_of_a_dry_run() {
    let mut c = CMD::new();
    c.outline = small();
    c.range = vec![4];
    c.quiet = true;
    let d = c.describe();
    assert_eq!(d, format!("The code appended to the command will be:\n{}\nQuiet mode enabled: true",
        c.get_tex_code()));
    c.engine = Engine::LATEX;
    c.quiet = false;
    assert_eq!(c.describe(),
        "The code appended to the command will be:\nInvalid engine detected.\nQuiet mode enabled: false");
}

#[test]
fn last_subsection_line_decides() {
    let on = config::read_contents(Some(String::from(
        "handle_subsections: false\nfile: a\n  handle_subsections: true  \n"))).unwrap();
    assert!(on.handle_subsections());
    let off = config::read_contents(Some(String::from(
        "handle_subsections: true\nhandle_subsections: yes\nfile: a\n"))).unwrap();
    assert!(!off.handle_subsections());
    let none = config::read_contents(Some(String::from("file: a\n"))).unwrap();
    assert!(!none.handle_subsections());
}

#[test]
fn flags_dry_run_help_and_quiet() {
    let args: Vec<String> = ["trex", "-d", "-r", "1", "-q", "-o", "12pt", "-h"]
        .iter().map(|s| s.to_string()).collect();
    let m = parse_args::parse(args);
    assert_eq!(m.get("-d").map(|s| s.as_str()), Some("true"));
    assert_eq!(m.get("-r").map(|s| s.as_str()), Some("1"));
    assert_eq!(m.get("-q").map(|s| s.as_str()), Some("true"));
    assert_eq!(m.get("-o").map(|s| s.as_str()), Some("12pt"));
    assert_eq!(m.get("-h").map(|s| s.as_str()), Some("true"));
    assert!(matches!(compile_mode(&m), Mode::DryRun));
    let cmd = build_command(small(), &m).unwrap();
    assert!(cmd.quiet);
    assert_eq!(cmd.class_options, vec![String::from("12pt")]);
    assert!(cmd.get_tex_code().starts_with("\"\\PassOptionsToClass{12pt}{article}"));
}

#[test]
fn first_section_of_a_new_chapter_gets_its_heading() {
    // Section T is the first section of chapter B and has the same number
    // as section S had in chapter A; its counter and heading are still
    // written.
    let o = config::read_contents(Some(String::from(
        "chapter: A\nsection: S\nfile: f1\nchapter: B\nsection: T\nfile: f2"))).unwrap();
    assert_eq!(get_document_content(&vec![1, 2], &o),
        "\\setcounter{chapter}{0}\\chapter{A}\\setcounter{section}{0}\\section{S}\\input{f1}\
         \\setcounter{chapter}{1}\\chapter{B}\\setcounter{section}{0}\\section{T}\\input{f2}");
    // Within one chapter and section, no heading is repeated; a chapter
    // without sections writes no section counter.
    let o2 = config::read_contents(Some(String::from(
        "chapter: A\nfile: f1\nfile: f2\nchapter: B\nfile: f3"))).unwrap();
    assert_eq!(get_document_content(&vec![1, 3], &o2),
        "\\setcounter{chapter}{0}\\chapter{A}\\input{f1}\
         \\setcounter{chapter}{1}\\chapter{B}\\input{f3}");
}
