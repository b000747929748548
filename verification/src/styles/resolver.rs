use vstd::prelude::*;
use crate::error::DocxError;
use crate::numbering::defs::NumberingLevel;
use crate::raw::paragraphs::{RawParagraph, RawParagraphProperties};
use crate::raw::runs::{RawRun, RawRunProperties};
use crate::styles::formatting::ResolvedFormatting;
use crate::styles::table::{StyleEntry, StyleTable};
use crate::text::str_eq;

verus! {

/// Maximum length of a `basedOn` chain.
pub const MAX_STYLE_DEPTH: usize = 64;

/// The outcome of following `basedOn` links from a style.
pub enum ChainOutcome {
    /// The styles met, starting style first; the walk stopped at a style
    /// without `basedOn` or at an id the table does not define.
    Chain(Seq<StyleEntry>),
    /// The chain reached `MAX_STYLE_DEPTH` styles with more to follow.
    TooDeep,
    /// The id was met a second time.
    Circular(Seq<char>),
}

pub open spec fn chain_walk(
    styles: Map<Seq<char>, StyleEntry>,
    cur: Seq<char>,
    visited: Seq<Seq<char>>,
    chain: Seq<StyleEntry>,
) -> ChainOutcome
    decreases MAX_STYLE_DEPTH - chain.len(),
{
    if chain.len() >= MAX_STYLE_DEPTH {
        ChainOutcome::TooDeep
    } else if visited.contains(cur) {
        ChainOutcome::Circular(cur)
    } else if !styles.contains_key(cur) {
        ChainOutcome::Chain(chain)
    } else {
        let e = styles[cur];
        match e.based_on {
            Some(parent) => chain_walk(styles, parent@, visited.push(cur), chain.push(e)),
            None => ChainOutcome::Chain(chain.push(e)),
        }
    }
}

/// The `basedOn` chain of a paragraph's style (empty without a style).
pub open spec fn paragraph_chain(styles: Map<Seq<char>, StyleEntry>, p: RawParagraph) -> ChainOutcome {
    match p.properties.style_id {
        Some(id) => chain_walk(styles, id@, Seq::empty(), Seq::empty()),
        None => ChainOutcome::Chain(Seq::empty()),
    }
}

/// `e` is the error reported for a failed chain walk from `start`.
pub open spec fn chain_error(e: DocxError, outcome: ChainOutcome, start: Seq<char>) -> bool {
    match outcome {
        ChainOutcome::TooDeep => e matches DocxError::StyleChainTooDeep { style, limit } && style@ == start
            && limit == MAX_STYLE_DEPTH,
        ChainOutcome::Circular(id) => e matches DocxError::CircularStyleReference(s) && s@ == id,
        ChainOutcome::Chain(_) => false,
    }
}

pub open spec fn pick<T>(over: Option<T>, base: Option<T>) -> Option<T> {
    if over is Some { over } else { base }
}

/// Paragraph properties layered over `f`: a declared value replaces.
pub open spec fn merge_paragraph(f: ResolvedFormatting, p: RawParagraphProperties) -> ResolvedFormatting {
    ResolvedFormatting {
        outline_level: pick(p.outline_level, f.outline_level),
        num_pr: pick(p.num_pr, f.num_pr),
        ..f
    }
}

/// Run properties layered over `f`: a declared value replaces, an explicit
/// `false` switches a toggle off.
pub open spec fn merge_run(f: ResolvedFormatting, p: RawRunProperties) -> ResolvedFormatting {
    ResolvedFormatting {
        bold: match p.bold { Some(b) => b, None => f.bold },
        italic: match p.italic { Some(b) => b, None => f.italic },
        underline: match p.underline { Some(b) => b, None => f.underline },
        strikethrough: match p.strikethrough { Some(b) => b, None => f.strikethrough },
        font_size_half_points: pick(p.font_size_half_points, f.font_size_half_points),
        color: pick(p.color, f.color),
        ..f
    }
}

pub open spec fn merge_paragraph_opt(f: ResolvedFormatting, p: Option<RawParagraphProperties>) -> ResolvedFormatting {
    match p { Some(p) => merge_paragraph(f, p), None => f }
}

pub open spec fn merge_run_opt(f: ResolvedFormatting, p: Option<RawRunProperties>) -> ResolvedFormatting {
    match p { Some(p) => merge_run(f, p), None => f }
}

/// The paragraph layers of a chain given starting style first, applied
/// root first.
pub open spec fn paragraph_layers(f: ResolvedFormatting, walk: Seq<StyleEntry>) -> ResolvedFormatting
    decreases walk.len(),
{
    if walk.len() == 0 { f } else { merge_paragraph_opt(paragraph_layers(f, walk.drop_first()), walk[0].paragraph_properties) }
}

pub open spec fn run_layers(f: ResolvedFormatting, walk: Seq<StyleEntry>) -> ResolvedFormatting
    decreases walk.len(),
{
    if walk.len() == 0 { f } else { merge_run_opt(run_layers(f, walk.drop_first()), walk[0].run_properties) }
}

pub open spec fn plain() -> ResolvedFormatting {
    ResolvedFormatting {
        bold: false,
        italic: false,
        underline: false,
        strikethrough: false,
        font_size_half_points: None,
        color: None,
        outline_level: None,
        heading_level: None,
        num_pr: None,
    }
}

/// Outline levels 0..=8 are heading levels 1..=9.
pub open spec fn heading_of_outline(outline: Option<u8>) -> Option<u8> {
    match outline {
        Some(l) => if l <= 8 { Some((l + 1) as u8) } else { None },
        None => None,
    }
}

/// Paragraph formatting: document defaults, then the style chain root
/// first, then the paragraph's own properties.
pub open spec fn paragraph_formatting(
    defaults: Option<RawParagraphProperties>,
    walk: Seq<StyleEntry>,
    own: RawParagraphProperties,
) -> ResolvedFormatting {
    let f = merge_paragraph(paragraph_layers(merge_paragraph_opt(plain(), defaults), walk), own);
    ResolvedFormatting { heading_level: heading_of_outline(f.outline_level), ..f }
}

/// Run formatting: document defaults, the style chain root first, the
/// list level, then the run's own properties.
pub open spec fn run_formatting(
    defaults: Option<RawRunProperties>,
    walk: Seq<StyleEntry>,
    level: Option<NumberingLevel>,
    own: RawRunProperties,
) -> ResolvedFormatting {
    let f = run_layers(merge_run_opt(plain(), defaults), walk);
    let f = match level { Some(l) => merge_run_opt(f, l.run_properties), None => f };
    merge_run(f, own)
}

fn merge_paragraph_props_into(target: &mut ResolvedFormatting, src: &RawParagraphProperties)
    ensures
        *final(target) == merge_paragraph(*old(target), *src),
{
    if let Some(lvl) = src.outline_level {
        target.outline_level = Some(lvl);
    }
    if let Some(n) = src.num_pr {
        target.num_pr = Some(n);
    }
}

fn merge_run_props_into(target: &mut ResolvedFormatting, src: &RawRunProperties)
    ensures
        *final(target) == merge_run(*old(target), *src),
{
    if let Some(size) = src.font_size_half_points {
        target.font_size_half_points = Some(size);
    }
    if let Some(color) = &src.color {
        target.color = Some(color.clone());
    }
    if let Some(b) = src.bold {
        target.bold = b;
    }
    if let Some(b) = src.italic {
        target.italic = b;
    }
    if let Some(b) = src.underline {
        target.underline = b;
    }
    if let Some(b) = src.strikethrough {
        target.strikethrough = b;
    }
}

fn plain_formatting() -> (f: ResolvedFormatting)
    ensures
        f == plain(),
{
    ResolvedFormatting {
        bold: false,
        italic: false,
        underline: false,
        strikethrough: false,
        font_size_half_points: None,
        color: None,
        outline_level: None,
        heading_level: None,
        num_pr: None,
    }
}

/// Resolves formatting through the document defaults and `basedOn` chains
/// of a style table.
pub struct StyleResolver<'a> {
    table: &'a StyleTable,
}

impl<'a> StyleResolver<'a> {
    pub closed spec fn table(self) -> StyleTable {
        *self.table
    }

    pub fn new(table: &'a StyleTable) -> (r: Self)
        ensures
            r.table() == *table,
    {
        StyleResolver { table }
    }

    /// Paragraph formatting through document defaults, the `basedOn` chain
    /// of the paragraph's style (root first) and its direct properties;
    /// fails when that chain is circular or too deep.
    pub fn resolve_paragraph(&self, paragraph: &RawParagraph) -> (r: Result<ResolvedFormatting, DocxError>)
        requires
            self.table().wf(),
        ensures
            match paragraph_chain(self.table().styles_map(), *paragraph) {
                ChainOutcome::Chain(walk) => r == Ok::<ResolvedFormatting, DocxError>(
                    paragraph_formatting(self.table().defaults_paragraph(), walk, paragraph.properties)),
                outcome => r matches Err(e) && chain_error(e, outcome, paragraph.properties.style_id.unwrap()@),
            },
    {
        let mut resolved = plain_formatting();
        if let Some(defaults) = self.table.doc_defaults_paragraph_properties() {
            merge_paragraph_props_into(&mut resolved, defaults);
        }
        let ghost base = resolved;
        let ghost mut walk: Seq<StyleEntry> = Seq::empty();
        if let Some(style_id) = &paragraph.properties.style_id {
            let chain = match self.collect_style_chain(style_id.as_str()) {
                Ok(c) => c,
                Err(e) => return Err(e),
            };
            proof {
                walk = chain_walk(self.table().styles_map(), style_id@, Seq::empty(), Seq::empty())->Chain_0;
            }
            let n = chain.len();
            let mut i: usize = 0;
            while i < n
                invariant
                    n == chain@.len(),
                    n == walk.len(),
                    i <= n,
                    forall|k: int| 0 <= k < n ==> *(#[trigger] chain@[k]) == walk[n - 1 - k],
                    resolved == paragraph_layers(base, walk.subrange(n - i, n as int)),
                decreases n - i,
            {
                proof {
                    assert(walk.subrange(n - i - 1, n as int).drop_first() =~= walk.subrange(n - i, n as int));
                }
                if let Some(ppr) = &chain[i].paragraph_properties {
                    merge_paragraph_props_into(&mut resolved, ppr);
                }
                i = i + 1;
            }
            assert(walk.subrange(0, n as int) =~= walk);
        }
        merge_paragraph_props_into(&mut resolved, &paragraph.properties);
        resolved.heading_level = match resolved.outline_level {
            Some(l) => if l <= 8 { Some(l + 1) } else { None },
            None => None,
        };
        Ok(resolved)
    }

    /// Run formatting through document defaults, the `basedOn` chain of
    /// the paragraph's style (root first), the list level's run properties
    /// and the run's direct properties; fails when that chain is circular
    /// or too deep.
    pub fn resolve_run(
        &self,
        paragraph: &RawParagraph,
        run: &RawRun,
        list_level: Option<&NumberingLevel>,
    ) -> (r: Result<ResolvedFormatting, DocxError>)
        requires
            self.table().wf(),
        ensures
            match paragraph_chain(self.table().styles_map(), *paragraph) {
                ChainOutcome::Chain(walk) => r == Ok::<ResolvedFormatting, DocxError>(run_formatting(
                    self.table().defaults_run(),
                    walk,
                    match list_level { Some(l) => Some(*l), None => None },
                    run.properties,
                )),
                outcome => r matches Err(e) && chain_error(e, outcome, paragraph.properties.style_id.unwrap()@),
            },
    {
        let mut resolved = plain_formatting();
        if let Some(defaults) = self.table.doc_defaults_run_properties() {
            merge_run_props_into(&mut resolved, defaults);
        }
        let ghost base = resolved;
        let ghost mut walk: Seq<StyleEntry> = Seq::empty();
        if let Some(style_id) = &paragraph.properties.style_id {
            let chain = match self.collect_style_chain(style_id.as_str()) {
                Ok(c) => c,
                Err(e) => return Err(e),
            };
            proof {
                walk = chain_walk(self.table().styles_map(), style_id@, Seq::empty(), Seq::empty())->Chain_0;
            }
            let n = chain.len();
            let mut i: usize = 0;
            while i < n
                invariant
                    n == chain@.len(),
                    n == walk.len(),
                    i <= n,
                    forall|k: int| 0 <= k < n ==> *(#[trigger] chain@[k]) == walk[n - 1 - k],
                    resolved == run_layers(base, walk.subrange(n - i, n as int)),
                decreases n - i,
            {
                proof {
                    assert(walk.subrange(n - i - 1, n as int).drop_first() =~= walk.subrange(n - i, n as int));
                }
                if let Some(rpr) = &chain[i].run_properties {
                    merge_run_props_into(&mut resolved, rpr);
                }
                i = i + 1;
            }
            assert(walk.subrange(0, n as int) =~= walk);
        }
        if let Some(level) = list_level {
            if let Some(rpr) = &level.run_properties {
                merge_run_props_into(&mut resolved, rpr);
            }
        }
        merge_run_props_into(&mut resolved, &run.properties);
        Ok(resolved)
    }

    /// The `basedOn` chain of a style, root first.
    fn collect_style_chain(&self, style_id: &str) -> (r: Result<Vec<&'a StyleEntry>, DocxError>)
        requires
            self.table().wf(),
        ensures
            match chain_walk(self.table().styles_map(), style_id@, Seq::empty(), Seq::empty()) {
                ChainOutcome::Chain(walk) => r matches Ok(v) && v@.len() == walk.len()
                    && forall|k: int| 0 <= k < walk.len() ==> *(#[trigger] v@[k]) == walk[walk.len() - 1 - k],
                outcome => r matches Err(e) && chain_error(e, outcome, style_id@),
            },
    {
        let ghost styles = self.table().styles_map();
        let mut chain: Vec<&'a StyleEntry> = Vec::new();
        let mut visited: Vec<&str> = Vec::new();
        let mut current_id: &str = style_id;
        let ghost mut vis: Seq<Seq<char>> = Seq::empty();
        let ghost mut walked: Seq<StyleEntry> = Seq::empty();
        loop
            invariant_except_break
                chain_walk(styles, current_id@, vis, walked)
                    == chain_walk(styles, style_id@, Seq::empty(), Seq::empty()),
            invariant
                self.table().wf(),
                styles == self.table().styles_map(),
                chain@.len() == walked.len(),
                walked.len() <= MAX_STYLE_DEPTH,
                forall|k: int| 0 <= k < walked.len() ==> *(#[trigger] chain@[k]) == walked[k],
                visited@.len() == vis.len(),
                forall|k: int| 0 <= k < vis.len() ==> (#[trigger] visited@[k])@ == vis[k],
            ensures
                chain@.len() == walked.len(),
                forall|k: int| 0 <= k < walked.len() ==> *(#[trigger] chain@[k]) == walked[k],
                chain_walk(styles, style_id@, Seq::empty(), Seq::empty()) == ChainOutcome::Chain(walked),
            decreases MAX_STYLE_DEPTH - chain@.len(),
        {
            if chain.len() >= MAX_STYLE_DEPTH {
                return Err(DocxError::StyleChainTooDeep { style: style_id.to_owned(), limit: MAX_STYLE_DEPTH });
            }
            let mut seen = false;
            let mut j: usize = 0;
            while j < visited.len()
                invariant
                    j <= visited@.len(),
                    visited@.len() == vis.len(),
                    forall|k: int| 0 <= k < vis.len() ==> (#[trigger] visited@[k])@ == vis[k],
                    seen == exists|k: int| 0 <= k < j && vis[k] == current_id@,
                decreases visited.len() - j,
            {
                if str_eq(visited[j], current_id) {
                    seen = true;
                }
                j = j + 1;
            }
            proof {
                if seen {
                    let k = choose|k: int| 0 <= k < visited@.len() && vis[k] == current_id@;
                    assert(vis.contains(current_id@));
                } else {
                    assert(!vis.contains(current_id@));
                }
            }
            if seen {
                return Err(DocxError::CircularStyleReference(current_id.to_owned()));
            }
            let entry = match self.table.get(current_id) {
                Some(e) => e,
                None => break,
            };
            visited.push(current_id);
            chain.push(entry);
            proof {
                vis = vis.push(current_id@);
                walked = walked.push(*entry);
            }
            match &entry.based_on {
                Some(parent) => {
                    current_id = parent.as_str();
                },
                None => break,
            }
        }
        let n = chain.len();
        let mut out: Vec<&'a StyleEntry> = Vec::new();
        let mut i: usize = n;
        while i > 0
            invariant
                i <= n,
                n == chain@.len(),
                out@.len() == n - i,
                forall|k: int| 0 <= k < n - i ==> *(#[trigger] out@[k]) == *chain@[n - 1 - k],
            decreases i,
        {
            i = i - 1;
            out.push(chain[i]);
        }
        Ok(out)
    }
}

/// In a `basedOn` chain, a style's own run properties override those of
/// every style it is based on, and whatever it leaves unset is inherited
/// from them.
pub proof fn law_style_overrides_its_base(f: ResolvedFormatting, walk: Seq<StyleEntry>, p: RawRunProperties)
    requires
        walk.len() > 0,
        walk[0].run_properties == Some(p),
    ensures
        run_layers(f, walk).bold == (match p.bold { Some(b) => b, None => run_layers(f, walk.drop_first()).bold }),
        run_layers(f, walk).italic == (match p.italic { Some(b) => b, None => run_layers(f, walk.drop_first()).italic }),
        run_layers(f, walk).font_size_half_points == pick(p.font_size_half_points, run_layers(f, walk.drop_first()).font_size_half_points),
        run_layers(f, walk).color == pick(p.color, run_layers(f, walk.drop_first()).color),
{
}

/// A run's own formatting wins over every inherited layer: document
/// defaults, the style chain and the list level.
pub proof fn law_direct_run_formatting_wins(
    defaults: Option<RawRunProperties>,
    walk: Seq<StyleEntry>,
    level: Option<NumberingLevel>,
    own: RawRunProperties,
)
    ensures
        own.bold matches Some(b) ==> run_formatting(defaults, walk, level, own).bold == b,
        own.italic matches Some(b) ==> run_formatting(defaults, walk, level, own).italic == b,
        own.underline matches Some(b) ==> run_formatting(defaults, walk, level, own).underline == b,
        own.strikethrough matches Some(b) ==> run_formatting(defaults, walk, level, own).strikethrough == b,
        own.font_size_half_points is Some ==> run_formatting(defaults, walk, level, own).font_size_half_points == own.font_size_half_points,
        own.color is Some ==> run_formatting(defaults, walk, level, own).color == own.color,
{
}

/// The list level's run properties override the style chain, and are
/// overridden only by what the run itself declares.
pub proof fn law_list_level_overrides_style_chain(
    defaults: Option<RawRunProperties>,
    walk: Seq<StyleEntry>,
    level: NumberingLevel,
    lp: RawRunProperties,
    own: RawRunProperties,
)
    requires
        level.run_properties == Some(lp),
    ensures
        own.color is None && lp.color is Some ==> run_formatting(defaults, walk, Some(level), own).color == lp.color,
        own.font_size_half_points is None && lp.font_size_half_points is Some
            ==> run_formatting(defaults, walk, Some(level), own).font_size_half_points == lp.font_size_half_points,
        own.bold is None ==> (lp.bold matches Some(b) ==> run_formatting(defaults, walk, Some(level), own).bold == b),
{
}

} // verus!
