use trex::config;
use trex::config::Outline;

const DEFAULT_CONF: &str = "preamble: preamble.tex
class: article
chapter: Chapter 1
section: Files 1-3
file: file-1
file: file-2
file: file-3
section: Files 4-7
file: file-4
file: file-5
file: file-6
file: file-7
chapter: Chapter 2
section: Files 8-10
file: file-8
file: file-9
file: file-10
";

fn read_example(contents: &str) -> Option<Outline> {
    config::read_contents(Some(String::from(contents)))
}

#[test]
fn default_config_test() {
    // The file does not exist, so the minimal configuration is read.
    let outline = config::read_contents(None).unwrap();
    let preamble = match outline.get_preamble() {
        Some(s) => s.as_str(),
        None => "none",
    };

    let file = match outline.get_lecture(0) {
        Some(s) => s.as_str(),
        None => "none",
    };

    let none = match outline.get_lecture(1) {
        Some(s) => s.as_str(),
        None => "failed",
    };

    assert_eq!(preamble, "preamble.tex");
    assert_eq!(file, "file-1.tex");
    assert_eq!(none, "failed");
}

#[test]
fn test_config() {
    let out = match read_example(DEFAULT_CONF) {
        Some(outline) => outline,
        None => Outline::new(),
    };
    assert_eq!(out.preamble, "preamble.tex");
    assert_eq!(out.class, "article");

    let mut idx = 0;
    let num_files = out.files.len();

    loop {
        if idx >= num_files {
            break;
        }

        if idx <= 6 {
            assert_eq!(out.chapter_names[idx], "Chapter 1");
            assert_eq!(out.chapter_indices[idx], 1);
        } else {
            assert_eq!(out.chapter_names[idx], "Chapter 2");
            assert_eq!(out.chapter_indices[idx], 2);
        }

        if idx <= 2 {
            assert_eq!(out.section_names[idx], "Files 1-3");
            assert_eq!(out.section_indices[idx], 1);
        } else if idx <= 6 {
            assert_eq!(out.section_names[idx], "Files 4-7");
            assert_eq!(out.section_indices[idx], 2);
        } else {
            assert_eq!(out.section_names[idx], "Files 8-10");
            assert_eq!(out.section_indices[idx], 1);
        }

        if idx == 0 || idx == 7 {
            assert_eq!(out.chapter_positions[idx], 1);
        } else {
            assert_eq!(out.chapter_positions[idx], 0);
        }

        if idx == 0 || idx == 3 || idx == 7 {
            assert_eq!(out.section_positions[idx], 1);
        } else {
            assert_eq!(out.section_positions[idx], 0);
        }

        idx += 1;
    }
}

#[test]
fn config_lists_have_one_extra_heading_slot() {
    let out = read_example(DEFAULT_CONF).unwrap();
    assert_eq!(out.files.len(), 10);
    assert_eq!(out.chapter_positions.len(), 11);
    assert_eq!(out.chapter_names.len(), 11);
    assert_eq!(out.section_positions.len(), 11);
    assert_eq!(out.section_names.len(), 11);
    assert_eq!(out.chapter_indices.len(), 10);
    assert_eq!(out.section_indices.len(), 10);
    assert_eq!(out.subsection_indices, vec![0, 1, 2, 0, 1, 2, 3, 0, 1, 2]);
    assert_eq!(out.chapter_names[10], "Chapter 2");
    assert_eq!(out.section_names[10], "Files 8-10");
}

#[test]
fn config_lines_are_trimmed_and_options_read() {
    let text = "  preamble: pre.tex\r\n\t# file: ignored.tex\n\
                class: beamer  \n\
                handle_subsections: true\n\
                handle_sections: no\n\
                bib_style: alpha\n\
                bibliography: refs.bib\n\
                preamble: -more\n\
                nonsense line\n\
                file:missing-space.tex\n\
                \u{00A0}file: a.tex\u{00A0}\n";
    let out = read_example(text).unwrap();
    assert_eq!(out.preamble, "pre.tex-more");
    assert_eq!(out.class, "beamer");
    assert!(out.handle_subsections());
    assert!(!out.handle_sections);
    assert!(out.handle_chapters);
    assert_eq!(out.bib_style, "alpha");
    assert_eq!(out.bib_file, "refs.bib");
    assert_eq!(out.files, vec![String::from("a.tex")]);
    assert_eq!(out.chapter_indices, vec![0]);
    assert_eq!(out.section_indices, vec![0]);
    assert_eq!(out.subsection_indices, vec![0]);
}

#[test]
fn config_of_empty_text() {
    let out = config::parse(&String::new()).unwrap();
    assert_eq!(out.files.len(), 0);
    assert_eq!(out.chapter_positions, vec![0]);
    assert_eq!(out.section_positions, vec![0]);
    assert_eq!(out.get_preamble(), None);
    assert_eq!(out.get_lecture(0), None);
}

#[test]
fn config_numbering_follows_headings() {
    let text = "file: a\nchapter: A\nchapter: B\nfile: b\nsection: x\nsection: y\nfile: c\nfile: d\nchapter: C\nsection: z\nfile: e\n";
    let out = read_example(text).unwrap();
    assert_eq!(out.chapter_indices, vec![0, 2, 2, 2, 3]);
    assert_eq!(out.section_indices, vec![0, 0, 2, 2, 1]);
    assert_eq!(out.subsection_indices, vec![0, 0, 0, 1, 0]);
    assert_eq!(out.chapter_positions, vec![0, 1, 0, 0, 1, 0]);
    assert_eq!(out.section_positions, vec![0, 0, 1, 0, 1, 0]);
    assert_eq!(out.chapter_names[1], "B");
    assert_eq!(out.section_names[2], "y");
}

#[test]
fn outline_new_defaults() {
    let o = Outline::new();
    assert!(o.files.is_empty());
    assert!(o.handle_chapters);
    assert!(o.handle_sections);
    assert!(!o.handle_subsections());
    assert_eq!(o.get_preamble(), None);
}
