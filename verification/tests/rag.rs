use oxidize_docx_core::numbering::ListType;
use oxidize_docx_core::pipeline::element::{DocxElement, HeaderKind, HeadingContext, TableCell, TableRow};
use oxidize_docx_core::pipeline::hybrid::{estimate_tokens, pack_sentences, split_sentences, MergePolicy};
use oxidize_docx_core::pipeline::profile::ExtractionProfile;
use oxidize_docx_core::pipeline::rag::DocxRagChunker;

fn p(t: &str) -> DocxElement {
    DocxElement::Paragraph { text: t.into(), parent_heading: None, links: vec![] }
}

fn h(level: u8, t: &str) -> DocxElement {
    DocxElement::Heading { level, text: t.into() }
}

#[test]
fn academic_profile_inlines_footnote_text_into_preceding_paragraph() {
    let elements = vec![p("see"), DocxElement::Footnote { id: 1, text: "details".into() }];
    let chunks = DocxRagChunker::new().with_profile(ExtractionProfile::Academic).chunk(&elements);
    assert_eq!(chunks.len(), 1);
    let c = &chunks[0];
    assert_eq!(c.text, "see (Note 1: details)");
    assert_eq!(c.element_types, vec!["paragraph".to_string()]);
    assert_eq!(c.paragraph_indices, vec![0]);
}

#[test]
fn minimal_profile_drops_footnote_endnote_and_comment_elements() {
    let elements = vec![
        p("main"),
        DocxElement::Footnote { id: 1, text: "fn".into() },
        DocxElement::Endnote { id: 2, text: "en".into() },
        DocxElement::Comment { id: 3, author: "A".into(), text: "cm".into() },
    ];
    let chunks = DocxRagChunker::new().with_profile(ExtractionProfile::Minimal).chunk(&elements);
    assert_eq!(chunks.len(), 1);
    let c = &chunks[0];
    assert_eq!(c.text, "main");
    assert_eq!(c.element_types, vec!["paragraph".to_string()]);
    assert_eq!(c.paragraph_indices, vec![0]);
}

#[test]
fn default_profile_produces_identical_chunks_to_no_profile_call() {
    let elements = vec![h(1, "H"), p("body")];
    let baseline = DocxRagChunker::new().chunk(&elements);
    let with_default = DocxRagChunker::new().with_profile(ExtractionProfile::Default).chunk(&elements);
    assert_eq!(baseline, with_default);
}

#[test]
fn paragraph_indices_are_contiguous_within_each_chunk_and_cover_input() {
    let elements = vec![h(1, "A"), p("p0"), p("p1"), h(1, "B"), p("p2")];
    let chunks = DocxRagChunker::new().chunk(&elements);
    let all: Vec<usize> = chunks.iter().flat_map(|c| c.paragraph_indices.iter().copied()).collect();
    assert_eq!(all, (0..elements.len()).collect::<Vec<_>>());
    for c in &chunks {
        for w in c.paragraph_indices.windows(2) {
            assert_eq!(w[1], w[0] + 1, "indices within a chunk must be contiguous");
        }
    }
}

#[test]
fn paragraph_exceeding_max_tokens_splits_at_sentence_boundaries_marked_oversized() {
    let para = p("First sentence. Second sentence. Third sentence.");
    let chunks = DocxRagChunker::new().with_max_tokens(5).chunk(&[para]);
    assert_eq!(chunks.len(), 3, "one chunk per sentence");
    assert_eq!(chunks[0].text, "First sentence.");
    assert_eq!(chunks[1].text, "Second sentence.");
    assert_eq!(chunks[2].text, "Third sentence.");
    for c in &chunks {
        assert!(c.is_oversized, "chunks born from a split paragraph must be flagged");
        assert_eq!(c.paragraph_indices, vec![0]);
        assert_eq!(c.element_types, vec!["paragraph".to_string()]);
    }
}

#[test]
fn second_heading_at_same_level_opens_new_chunk() {
    let elements = vec![h(1, "A"), p("p1"), h(1, "B"), p("p2")];
    let chunks = DocxRagChunker::new().chunk(&elements);
    assert_eq!(chunks.len(), 2);
    assert_eq!(chunks[0].text, "A\n\np1");
    assert_eq!(chunks[0].paragraph_indices, vec![0, 1]);
    assert_eq!(chunks[0].heading_context, vec![HeadingContext { level: 1, text: "A".into() }]);
    assert_eq!(chunks[1].text, "B\n\np2");
    assert_eq!(chunks[1].paragraph_indices, vec![2, 3]);
    assert_eq!(chunks[1].heading_context, vec![HeadingContext { level: 1, text: "B".into() }]);
}

#[test]
fn inline_elements_exceeding_budget_split_across_multiple_chunks() {
    let elements = vec![p("one two three four"), p("five six seven eight"), p("nine ten eleven twelve")];
    let chunks = DocxRagChunker::new().with_max_tokens(8).chunk(&elements);
    assert_eq!(chunks.len(), 3, "each paragraph should be its own chunk");
    assert_eq!(chunks[0].text, "one two three four");
    assert_eq!(chunks[1].text, "five six seven eight");
    assert_eq!(chunks[2].text, "nine ten eleven twelve");
    for c in &chunks {
        assert!(c.token_estimate <= 8, "each chunk respects the cap");
        assert!(!c.is_oversized, "no single element exceeded the budget");
    }
    let all: Vec<usize> = chunks.iter().flat_map(|c| c.paragraph_indices.iter().copied()).collect();
    assert_eq!(all, vec![0, 1, 2]);
}

#[test]
fn heading_followed_by_paragraph_emits_single_chunk_with_heading_context() {
    let elements = vec![h(1, "H"), p("body")];
    let chunks = DocxRagChunker::new().chunk(&elements);
    assert_eq!(chunks.len(), 1, "single heading + paragraph → one chunk");
    let c = &chunks[0];
    assert_eq!(c.text, "H\n\nbody");
    assert_eq!(c.paragraph_indices, vec![0, 1]);
    assert_eq!(c.element_types, vec!["heading".to_string(), "paragraph".to_string()]);
    assert_eq!(c.heading_context, vec![HeadingContext { level: 1, text: "H".into() }]);
    assert!(!c.is_oversized);
    assert!(c.token_estimate > 0);
}

#[test]
fn table_breaks_the_running_buffer_into_its_own_chunk() {
    let table = DocxElement::Table {
        rows: vec![TableRow {
            cells: vec![
                TableCell { text: "a".into(), col_span: 1, row_span: 1 },
                TableCell { text: "b".into(), col_span: 1, row_span: 1 },
            ],
        }],
    };
    let elements = vec![p("before text"), table, p("after text")];
    let chunks = DocxRagChunker::new().chunk(&elements);
    assert_eq!(chunks.len(), 3, "table must not merge with prose");
    assert_eq!(chunks[0].text, "before text");
    assert_eq!(chunks[0].element_types, vec!["paragraph".to_string()]);
    assert_eq!(chunks[1].text, "a | b");
    assert_eq!(chunks[1].element_types, vec!["table".to_string()]);
    assert_eq!(chunks[2].text, "after text");
}

#[test]
fn same_type_only_policy_does_not_merge_paragraph_with_list_item() {
    let elements = vec![
        p("intro"),
        DocxElement::ListItem { text: "first".into(), level: 0, list_type: ListType::Bullet, display_index: None },
    ];
    let merged = DocxRagChunker::new().chunk(&elements);
    assert_eq!(merged.len(), 1);
    assert_eq!(merged[0].text, "intro\n\nfirst");
    let split = DocxRagChunker::new().with_merge_policy(MergePolicy::SameTypeOnly).chunk(&elements);
    assert_eq!(split.len(), 2);
    assert_eq!(split[0].text, "intro");
    assert_eq!(split[0].element_types, vec!["paragraph".to_string()]);
    assert_eq!(split[1].text, "first");
    assert_eq!(split[1].element_types, vec!["list_item".to_string()]);
}

#[test]
fn section_grouping_collapses_a_fitting_section_into_one_chunk() {
    let elements = vec![h(1, "Intro"), p("alpha"), p("beta"), p("gamma")];
    let chunks = DocxRagChunker::new().with_section_grouping(true).chunk(&elements);
    assert_eq!(chunks.len(), 1, "the whole heading section is one chunk");
    assert_eq!(chunks[0].text, "Intro\n\nalpha\n\nbeta\n\ngamma");
    assert_eq!(chunks[0].paragraph_indices, vec![0, 1, 2, 3]);
}

#[test]
fn section_grouping_splits_and_restamps_heading_when_section_overflows() {
    let elements = vec![h(1, "Big"), p("one two three four"), p("five six seven eight")];
    let chunks = DocxRagChunker::new().with_max_tokens(10).with_section_grouping(true).chunk(&elements);
    assert_eq!(chunks.len(), 2, "overflowing section falls back to greedy pack");
    for c in &chunks {
        assert_eq!(c.heading_context, vec![HeadingContext { level: 1, text: "Big".into() }]);
    }
}

#[test]
fn content_type_flags_reflect_table_and_list_presence() {
    let elements = vec![DocxElement::ListItem {
        text: "item".into(),
        level: 0,
        list_type: ListType::Bullet,
        display_index: None,
    }];
    let chunks = DocxRagChunker::new().chunk(&elements);
    assert_eq!(chunks.len(), 1);
    assert!(chunks[0].content_types.has_list);
    assert!(!chunks[0].content_types.has_table);
    assert!(!chunks[0].content_types.heading_only);
    let just_heading = vec![h(1, "H")];
    let hc = DocxRagChunker::new().chunk(&just_heading);
    assert!(hc[0].content_types.heading_only);
    assert!(!hc[0].content_types.has_list);
}

#[test]
fn heading_path_and_full_text_are_derived_from_context() {
    let elements = vec![h(1, "Chapter"), h(2, "Section"), p("body")];
    let chunks = DocxRagChunker::new().chunk(&elements);
    let last = chunks.last().unwrap();
    assert_eq!(last.heading_path, vec!["Chapter".to_string(), "Section".to_string()]);
    assert_eq!(last.full_text, "Chapter > Section\n\nSection\n\nbody");
}

#[test]
fn full_text_without_heading_is_just_the_text() {
    let elements = vec![p("orphan")];
    let chunks = DocxRagChunker::new().chunk(&elements);
    assert!(chunks[0].heading_path.is_empty());
    assert_eq!(chunks[0].full_text, "orphan");
}

#[test]
fn token_estimate_is_one_and_a_half_per_word_rounded_up() {
    assert_eq!(estimate_tokens(""), 0);
    assert_eq!(estimate_tokens("one"), 2);
    assert_eq!(estimate_tokens("one two"), 3);
    assert_eq!(estimate_tokens("  one   two three  "), 5);
    assert_eq!(estimate_tokens("one two three four"), 6);
}

#[test]
fn sentences_split_on_terminator_followed_by_space() {
    assert_eq!(
        split_sentences("A b. C d! E f? G"),
        vec!["A b.".to_string(), "C d!".to_string(), "E f?".to_string(), "G".to_string()]
    );
    assert_eq!(split_sentences("v1.2 stays"), vec!["v1.2 stays".to_string()]);
    assert!(split_sentences("   ").is_empty());
}

#[test]
fn sentences_are_packed_up_to_the_budget() {
    let s = vec!["one two.".to_string(), "three.".to_string(), "four five six.".to_string()];
    assert_eq!(pack_sentences(s, 5), vec!["one two. three.".to_string(), "four five six.".to_string()]);
}

#[test]
fn technical_profile_chunks_like_default_and_grouped_cap_holds() {
    let elements = vec![h(1, "T"), p("one two three"), p("four five six"), p("seven eight nine")];
    let a = DocxRagChunker::new().with_profile(ExtractionProfile::Technical).chunk(&elements);
    let b = DocxRagChunker::new().chunk(&elements);
    assert_eq!(a, b);
    let grouped = DocxRagChunker::new().with_max_tokens(8).with_section_grouping(true).chunk(&elements);
    for c in &grouped {
        assert!(c.is_oversized || c.token_estimate <= 8);
    }
}

#[test]
fn page_headers_and_footers_are_dropped_from_chunks() {
    let elements = vec![
        DocxElement::Header { kind: HeaderKind::Default, content: vec![p("hdr")] },
        p("body"),
        DocxElement::Footer { kind: HeaderKind::Default, content: vec![p("ftr")] },
    ];
    let chunks = DocxRagChunker::new().chunk(&elements);
    assert_eq!(chunks.len(), 1);
    assert_eq!(chunks[0].text, "body");
    assert_eq!(chunks[0].paragraph_indices, vec![1]);
}

#[test]
fn grouped_chunks_cover_the_input_in_order() {
    let elements = vec![
        p("preamble"),
        h(1, "A"),
        p("one two three four"),
        h(2, "A.1"),
        p("five six seven eight"),
        h(1, "B"),
        p("nine"),
    ];
    for max in [4usize, 8, 20, 800] {
        let chunks = DocxRagChunker::new().with_max_tokens(max).with_section_grouping(true).chunk(&elements);
        let all: Vec<usize> = chunks.iter().flat_map(|c| c.paragraph_indices.iter().copied()).collect();
        assert_eq!(all, (0..elements.len()).collect::<Vec<_>>(), "max_tokens = {max}");
        for c in &chunks {
            for w in c.paragraph_indices.windows(2) {
                assert_eq!(w[1], w[0] + 1);
            }
        }
    }
}

#[test]
fn minimal_profile_indices_point_into_the_input() {
    let elements = vec![DocxElement::Comment { id: 3, author: "A".into(), text: "cm".into() }, p("main")];
    let chunks = DocxRagChunker::new().with_profile(ExtractionProfile::Minimal).chunk(&elements);
    assert_eq!(chunks.len(), 1);
    assert_eq!(chunks[0].text, "main");
    assert_eq!(chunks[0].element_types, vec!["paragraph".to_string()]);
    assert_eq!(chunks[0].paragraph_indices, vec![1]);
}

#[test]
fn academic_profile_indices_skip_dropped_notes() {
    let elements = vec![
        p("first"),
        DocxElement::Footnote { id: 1, text: "n".into() },
        DocxElement::Comment { id: 2, author: "B".into(), text: "c".into() },
        p("second"),
    ];
    let chunks = DocxRagChunker::new().with_profile(ExtractionProfile::Academic).chunk(&elements);
    let all: Vec<usize> = chunks.iter().flat_map(|c| c.paragraph_indices.iter().copied()).collect();
    assert_eq!(all, vec![0, 2, 3]);
}

#[test]
fn headings_open_their_chunks_and_tables_stand_alone() {
    let table = DocxElement::Table {
        rows: vec![TableRow { cells: vec![TableCell { text: "t".into(), col_span: 1, row_span: 1 }] }],
    };
    let elements = vec![h(1, "A"), p("a"), h(2, "B"), p("b"), table, p("c")];
    let chunks = DocxRagChunker::new().chunk(&elements);
    for c in &chunks {
        let levels: Vec<u8> = c.heading_context.iter().map(|hc| hc.level).collect();
        for w in levels.windows(2) {
            assert!(w[0] < w[1]);
        }
        for &i in &c.paragraph_indices {
            if let DocxElement::Heading { level, text } = &elements[i] {
                assert_eq!(c.paragraph_indices[0], i);
                assert_eq!(c.heading_context.last(), Some(&HeadingContext { level: *level, text: text.clone() }));
            }
            if let DocxElement::Table { .. } = &elements[i] {
                assert_eq!(c.paragraph_indices, vec![i]);
            }
        }
    }
}

#[test]
fn split_paragraph_indices_repeat_once_per_fragment_and_page_parts_are_skipped() {
    let elements = vec![
        p("First sentence. Second sentence."),
        DocxElement::Header { kind: HeaderKind::Default, content: vec![p("page")] },
        p("tail"),
    ];
    let chunks = DocxRagChunker::new().with_max_tokens(5).chunk(&elements);
    let all: Vec<usize> = chunks.iter().flat_map(|c| c.paragraph_indices.iter().copied()).collect();
    assert_eq!(all, vec![0, 0, 2]);
}
