//! Parsing a source file into the metrics of its functions.

use vstd::prelude::*;
use vstd::utf8::encode_utf8;
use crate::language::{FunctionMetrics, Language, MetricsView};
use crate::measure::{parse_metrics, parse_with_offset, views};
use crate::sort::{lemma_sort_by_sorted, sort_by, sorted_by, stable_sort};
use crate::svelte::{
    block_in_bounds, blocks_from, blocks_of, lemma_blocks_in_bounds, measure_template, svelte_blocks,
    template_metrics, SvelteBlock,
};
use crate::syntax::{ts_parse_text, ts_tree, Grammar, ParseError};
use crate::text::{byte_len, chars_of, contains, contains_str, line_ranges};

verus! {

/// The language a script block is parsed as: TypeScript when its opening
/// tag says `lang="ts"` or `lang='ts'`, else JavaScript.
pub open spec fn script_language(src: Seq<char>, b: SvelteBlock) -> Language {
    let opening = src.subrange(b.start as int, b.open_end as int);
    if contains(opening, "lang=\"ts\""@) || contains(opening, "lang='ts'"@) {
        Language::TypeScript
    } else {
        Language::JavaScript
    }
}

/// The text between a block's tags.
pub open spec fn script_content(src: Seq<char>, b: SvelteBlock) -> Seq<char> {
    src.subrange(b.open_end as int, b.close as int)
}

/// The sequences one after another.
pub open spec fn concat_parts(parts: Seq<Seq<MetricsView>>) -> Seq<MetricsView>
    decreases parts.len(),
{
    if parts.len() == 0 {
        seq![]
    } else {
        concat_parts(parts.drop_last()) + parts.last()
    }
}

/// The metrics of one script block, its lines counted from the
/// component's start.
pub open spec fn script_metrics(src: Seq<char>, b: SvelteBlock) -> Option<Seq<MetricsView>> {
    parse_metrics(script_language(src, b), script_content(src, b), b.start_line)
}

/// The metrics of each script block in order, when every one parses.
pub open spec fn script_parts(src: Seq<char>) -> Option<Seq<Seq<MetricsView>>> {
    let scripts = blocks_from(src, true, 0);
    if forall|i: int| 0 <= i < scripts.len() ==> (#[trigger] script_metrics(src, scripts[i])) is Some {
        Some(Seq::new(scripts.len(), |i: int| script_metrics(src, scripts[i])->0))
    } else {
        None
    }
}

/// The metrics of a component: those of its scripts, then its template,
/// ordered by start and end line.
pub open spec fn svelte_metrics(src: Seq<char>, parts: Seq<Seq<MetricsView>>) -> Seq<MetricsView> {
    sort_by::<FunctionMetrics>(concat_parts(parts).push(template_metrics(src, svelte_blocks(src))))
}

/// What parsing a Svelte component gives: nothing when the Svelte grammar
/// yields no tree of it or a script block does not parse; else the metrics
/// of its scripts and its template.
pub open spec fn svelte_result(src: Seq<char>) -> Option<Seq<MetricsView>> {
    if ts_tree(Grammar::Svelte, src) is None {
        None
    } else {
        match script_parts(src) {
            Some(parts) => Some(svelte_metrics(src, parts)),
            None => None,
        }
    }
}

/// What parsing a file of `language` gives: a Svelte component's result,
/// or the metrics of the whole text.
pub open spec fn source_metrics(language: Language, src: Seq<char>) -> Option<Seq<MetricsView>> {
    if language == Language::Svelte {
        svelte_result(src)
    } else {
        parse_metrics(language, src, 0)
    }
}

/// Parses the whole component with the Svelte grammar: an error when the
/// grammar does not load or no tree comes back.
fn validate_svelte_grammar(source: &str) -> (r: Result<(), ParseError>)
    ensures
        r is Ok <==> ts_tree(Grammar::Svelte, source@) is Some,
        r matches Err(e) ==> e == ParseError::IncompatibleGrammar || e == ParseError::NoTree,
{
    ts_parse_text(Grammar::Svelte, source)?;
    Ok(())
}

/// The metrics of a Svelte component: each `<script>` block is parsed as
/// TypeScript or JavaScript (`script_language`) with its lines counted from
/// the component's start, and the template outside the `<script>` and
/// `<style>` blocks is measured as one function.
pub fn parse_svelte(source: &str) -> (r: Result<Vec<FunctionMetrics>, ParseError>)
    requires
        source@.len() <= usize::MAX / 8,
    ensures
        r is Ok <==> svelte_result(source@) is Some,
        r matches Ok(v) ==> svelte_result(source@) == Some(views(v@)),
{
    validate_svelte_grammar(source)?;
    let chars = chars_of(source);
    let total = byte_len(source);
    assert(encode_utf8(chars@).len() == total);
    let mut blocks: Vec<SvelteBlock> = Vec::new();
    blocks_of(&chars, true, &mut blocks);
    let scripts = blocks.len();
    blocks_of(&chars, false, &mut blocks);
    let ghost script_blocks = blocks_from(chars@, true, 0);
    assert(blocks@ =~= svelte_blocks(chars@));
    proof {
        lemma_blocks_in_bounds(chars@, true, 0);
    }
    let mut functions: Vec<FunctionMetrics> = Vec::new();
    let ghost mut parts: Seq<Seq<MetricsView>> = seq![];
    let mut i: usize = 0;
    assert(views(functions@) =~= concat_parts(parts));
    while i < scripts
        invariant
            i <= scripts,
            scripts == script_blocks.len(),
            script_blocks == blocks_from(chars@, true, 0),
            blocks@ == svelte_blocks(chars@),
            chars@ == source@,
            chars@.len() <= usize::MAX / 8,
            forall|j: int| 0 <= j < script_blocks.len() ==> block_in_bounds(chars@, #[trigger] script_blocks[j]),
            parts.len() == i,
            ts_tree(Grammar::Svelte, source@) is Some,
            forall|j: int| 0 <= j < i ==> script_metrics(chars@, script_blocks[j]) == Some(#[trigger] parts[j]),
            views(functions@) == concat_parts(parts),
        decreases scripts - i,
    {
        let b = blocks[i];
        assert(b == script_blocks[i as int]);
        assert(block_in_bounds(chars@, script_blocks[i as int]));
        let ts = contains_str(&chars, b.start, b.open_end, "lang=\"ts\"") || contains_str(
            &chars,
            b.start,
            b.open_end,
            "lang='ts'",
        );
        let language = if ts {
            Language::TypeScript
        } else {
            Language::JavaScript
        };
        let content = vstd::string::StrSliceExecFns::substring_char(source, b.open_end, b.close);
        assert(content@ == script_content(chars@, b));
        assert(language == script_language(chars@, b));
        let mut found = match parse_with_offset(language, content, b.start_line) {
            Ok(v) => v,
            Err(e) => {
                assert(script_metrics(chars@, script_blocks[i as int]) is None);
                return Err(e);
            },
        };
        let ghost before = parts;
        let ghost old_functions = functions@;
        proof {
            parts = parts.push(views(found@));
        }
        functions.append(&mut found);
        assert(views(functions@) =~= views(old_functions) + parts.last());
        assert(parts.drop_last() =~= before);
        i = i + 1;
    }
    let ranges = line_ranges(&chars);
    let template = measure_template(&chars, &ranges, &blocks);
    let ghost old_functions = functions@;
    functions.push(template);
    assert(views(functions@) =~= concat_parts(parts).push(template_metrics(chars@, svelte_blocks(chars@))));
    let sorted = stable_sort(functions);
    assert forall|j: int| 0 <= j < script_blocks.len() implies (#[trigger] script_metrics(
        chars@,
        script_blocks[j],
    )) is Some by {
        assert(script_metrics(chars@, script_blocks[j]) == Some(parts[j]));
    }
    assert(Seq::new(script_blocks.len(), |j: int| script_metrics(chars@, script_blocks[j])->0) =~= parts);
    Ok(sorted)
}

/// Parses a file of `language` and measures every function in it, ordered
/// by start and end line.
pub fn parse_source(language: Language, source: &str) -> (r: Result<Vec<FunctionMetrics>, ParseError>)
    requires
        language == Language::Svelte ==> source@.len() <= usize::MAX / 8,
    ensures
        r is Ok <==> source_metrics(language, source@) is Some,
        r matches Ok(v) ==> source_metrics(language, source@) == Some(views(v@)),
{
    if language == Language::Svelte {
        return parse_svelte(source);
    }
    parse_with_offset(language, source, 0)
}

/// The functions of a parsed file come out by start line, then end line.
pub proof fn lemma_parsed_in_line_order(language: Language, src: Seq<char>, r: Seq<MetricsView>)
    requires
        source_metrics(language, src) == Some(r),
    ensures
        sorted_by::<FunctionMetrics>(r),
{
    if language == Language::Svelte {
        let parts = script_parts(src)->0;
        lemma_sort_by_sorted::<FunctionMetrics>(concat_parts(parts).push(template_metrics(src, svelte_blocks(src))));
    } else {
        let ns = crate::syntax::parsed_nodes(crate::measure::grammar_of(language), src, (usize::MAX - 1) as int)->0;
        lemma_sort_by_sorted::<FunctionMetrics>(crate::metrics::collect_node(language, src, ns, 0, 0));
    }
}

} // verus!
