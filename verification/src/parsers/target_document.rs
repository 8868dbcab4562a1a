//! The act that an amending act changes: its kind and requisites.
use vstd::prelude::*;
use crate::error::{ErrorCode, ParserError};
use crate::json_path_creator::{FormatPathItem, JsonPathCreator};
use crate::parsers::chars::{
    ExecStep, Step, first_tag, first_tag_at, grammar_result, run_grammar, space_end, spaces_end,
    steps_view, words_view,
};
use crate::format_extensions::{find, find_from};
use crate::text::{chars_of, push_str, string_of_range};

verus! {

/// The kind of an amended act.
#[derive(Debug)]
pub enum DocumentType {
    /// A federal law: its date (`30 ноября 2020 года`) and number.
    FederalLaw(String, String),
    /// A code, by its name as written.
    Kodex(String),
}

/// The text of a kind of act: `ФЗ от <date> <number>` or the code's name.
pub open spec fn document_text(d: DocumentType) -> Seq<char> {
    match d {
        DocumentType::FederalLaw(date, number) => "ФЗ от "@ + date@ + " "@ + number@,
        DocumentType::Kodex(name) => name@,
    }
}

impl DocumentType {
    /// The text of this kind of act.
    pub fn text(&self) -> (r: String)
        ensures
            r@ == document_text(*self),
    {
        let mut r = String::new();
        match self {
            DocumentType::FederalLaw(date, number) => {
                push_str(&mut r, "ФЗ от ");
                push_str(&mut r, date.as_str());
                push_str(&mut r, " ");
                push_str(&mut r, number.as_str());
            },
            DocumentType::Kodex(name) => push_str(&mut r, name.as_str()),
        }
        r
    }
}

/// The act that an amending act changes.
#[derive(Debug)]
pub struct TargetDocument {
    /// The kind of the amended act.
    pub document_type: DocumentType,
    pub target_path: Option<FormatPathItem>,
    pub root_path: Option<JsonPathCreator>,
}

/// What is done to the amended act.
#[derive(Debug)]
pub enum TargetDocumentOperation {
    /// All the changes below concern this act.
    ApplyAllBelowChanes,
}

/// The names of the codes, in the order they are tried.
pub open spec fn kodex_names() -> Seq<Seq<char>> {
    seq![
        "Семейного кодекса"@,
        "Бюджетный кодекс"@,
        "Бюджетного кодекса"@,
        "Градостроительный кодекс"@,
        "Градостроительного кодекса"@,
        "Таможенный кодекс Таможенного союза"@,
        "Таможенного кодекса Таможенного союза"@,
        "Кодекс административного судопроизводства"@,
        "Кодекса административного судопроизводства"@,
        "Уголовно-исполнительный кодекс"@,
        "Уголовно-исполнительного кодекса"@,
        "Лесной кодекс"@,
        "Лесного кодекса"@,
        "Водный кодекс"@,
        "Водного кодекса"@,
        "Воздушный кодекс"@,
        "Воздушного кодекса"@,
        "Кодекс торгового мореплавания"@,
        "Кодекса торгового мореплавания"@,
        "Кодекс внутреннего водного транспорта"@,
        "Кодекса внутреннего водного транспорта"@,
        "Гражданский кодекс"@,
        "Гражданского кодекса"@,
        "Трудовой кодекс"@,
        "Трудового кодекса"@,
        "Налоговый кодекс"@,
        "Налогового кодекса"@,
        "Кодекс об административных правонарушениях"@,
        "Кодекса об административных правонарушениях"@,
        "Уголовный кодекс"@,
        "Уголовного кодекса"@,
        "Гражданский процессуальный кодекс"@,
        "Гражданского процессуального кодекса"@,
        "Уголовно-процессуальный кодекс"@,
        "Уголовно-процессуального кодекса"@,
        "Арбитражный процессуальный кодекс"@,
        "Арбитражно процессуального кодекса"@,
        "Земельный кодекс"@,
        "Земельного кодекса"@,
        "Жилищный кодекс"@,
        "Жилищного кодекса"@,
        "Семейный кодекс"@
    ]
}

/// Spaces, the name of a code (case aside), at least one space.
pub open spec fn kodex_grammar() -> Seq<Step> {
    seq![Step::Spaces, Step::OneOfNoCase(kodex_names()), Step::Space1]
}

fn kodex_list() -> (r: Vec<&'static str>)
    ensures
        words_view(r@) == kodex_names(),
{
    let mut v: Vec<&'static str> = Vec::new();
    v.push("Семейного кодекса");
    v.push("Бюджетный кодекс");
    v.push("Бюджетного кодекса");
    v.push("Градостроительный кодекс");
    v.push("Градостроительного кодекса");
    v.push("Таможенный кодекс Таможенного союза");
    v.push("Таможенного кодекса Таможенного союза");
    v.push("Кодекс административного судопроизводства");
    v.push("Кодекса административного судопроизводства");
    v.push("Уголовно-исполнительный кодекс");
    v.push("Уголовно-исполнительного кодекса");
    v.push("Лесной кодекс");
    v.push("Лесного кодекса");
    v.push("Водный кодекс");
    v.push("Водного кодекса");
    v.push("Воздушный кодекс");
    v.push("Воздушного кодекса");
    v.push("Кодекс торгового мореплавания");
    v.push("Кодекса торгового мореплавания");
    v.push("Кодекс внутреннего водного транспорта");
    v.push("Кодекса внутреннего водного транспорта");
    v.push("Гражданский кодекс");
    v.push("Гражданского кодекса");
    v.push("Трудовой кодекс");
    v.push("Трудового кодекса");
    v.push("Налоговый кодекс");
    v.push("Налогового кодекса");
    v.push("Кодекс об административных правонарушениях");
    v.push("Кодекса об административных правонарушениях");
    v.push("Уголовный кодекс");
    v.push("Уголовного кодекса");
    v.push("Гражданский процессуальный кодекс");
    v.push("Гражданского процессуального кодекса");
    v.push("Уголовно-процессуальный кодекс");
    v.push("Уголовно-процессуального кодекса");
    v.push("Арбитражный процессуальный кодекс");
    v.push("Арбитражно процессуального кодекса");
    v.push("Земельный кодекс");
    v.push("Земельного кодекса");
    v.push("Жилищный кодекс");
    v.push("Жилищного кодекса");
    v.push("Семейный кодекс");
    assert(words_view(v@) =~= kodex_names());
    v
}

/// The name of a code after optional spaces, as written, and the rest after the spaces
/// that follow it.
pub fn kodex_requisites(s: &str) -> (r: Result<(&str, DocumentType), ParserError>)
    ensures
        grammar_result(s@, kodex_grammar(), match r {
            Ok((rest, _)) => Ok(rest@),
            Err(e) => Err(e),
        }),
        r matches Ok((_, d)) ==> (d matches DocumentType::Kodex(name) && first_tag(
            s@,
            space_end(s@, 0),
            kodex_names(),
            true,
        ) matches Some(k) && name@ == s@.subrange(
            space_end(s@, 0),
            space_end(s@, 0) + kodex_names()[k].len(),
        )),
{
    let names = kodex_list();
    let mut steps: Vec<ExecStep> = Vec::new();
    steps.push(ExecStep::Spaces);
    steps.push(ExecStep::OneOfNoCase(names));
    steps.push(ExecStep::Space1);
    assert(steps_view(steps@) =~= kodex_grammar());
    let rest = run_grammar(s, &steps);
    match rest {
        Ok(rest) => {
            let cs = chars_of(s);
            let p = spaces_end(&cs, 0);
            let names = kodex_list();
            let k = first_tag_at(&cs, p, &names, true);
            proof {
                crate::parsers::chars::lemma_first_tag_found(s@, p as int, kodex_names(), true);
            }
            match k {
                Some(k) => {
                    assert(words_view(names@)[k as int] == names@[k as int]@);
                    let n = cs.len();
                    assert(p + names@[k as int]@.len() <= n);
                    let end = p + names[k].unicode_len();
                    let name = string_of_range(cs.as_slice(), p, end);
                    Ok((rest, DocumentType::Kodex(name)))
                },
                None => {
                    proof {
                        let g = kodex_grammar();
                        assert(g.drop_first() =~= seq![Step::OneOfNoCase(kodex_names()), Step::Space1]);
                        assert(crate::parsers::chars::run_steps(s@, 0, g) == crate::parsers::chars::run_steps(s@, space_end(s@, 0), g.drop_first()));
                        assert(crate::parsers::chars::run_steps(s@, space_end(s@, 0), g.drop_first()) is Err);
                    }
                    Err(ParserError::NomError { input: string_of_range(cs.as_slice(), 0, cs.len()), code: ErrorCode::Tag })
                },
            }
        },
        Err(e) => Err(e),
    }
}

/// `Внести в ` at the start of a line is skipped; otherwise the line is kept whole.
pub fn vnesti_str(s: &str) -> (r: &str)
    ensures
        grammar_result(s@, vnesti_grammar(), Ok(r@)) || (run_steps_fails(s@) && r@ == s@),
{
    let mut steps: Vec<ExecStep> = Vec::new();
    steps.push(ExecStep::Tag("Внести"));
    steps.push(ExecStep::Space1);
    steps.push(ExecStep::Tag("в"));
    steps.push(ExecStep::Space1);
    assert(steps_view(steps@) =~= vnesti_grammar());
    match run_grammar(s, &steps) {
        Ok(rest) => rest,
        Err(_) => s,
    }
}

/// `Внести`, spaces, `в`, spaces.
pub open spec fn vnesti_grammar() -> Seq<Step> {
    seq![Step::Tag("Внести"@), Step::Space1, Step::Tag("в"@), Step::Space1]
}

/// The start of the line is not `Внести в `.
pub open spec fn run_steps_fails(s: Seq<char>) -> bool {
    crate::parsers::chars::run_steps(s, 0, vnesti_grammar()) is Err
}

/// `следующие изменения:` stands somewhere in `s`: a list of changes follows.
pub fn is_next_changes(s: &str) -> (r: bool)
    ensures
        r == (find_from(s@, "следующие изменения:"@, 0) is Some),
{
    let cs = chars_of(s);
    let pat = chars_of("следующие изменения:");
    find(&cs, &pat).is_some()
}

/// `изложить в следующей редакции:` stands in `s` after something else first: a new
/// wording follows. (Where the phrase opens `s`, the answer is `false`.)
pub fn is_new_edition(s: &str) -> (r: bool)
    ensures
        r == (find_from(s@, "изложить в следующей редакции:"@, 0) matches Some(k) && k > 0),
{
    let cs = chars_of(s);
    let pat = chars_of("изложить в следующей редакции:");
    match find(&cs, &pat) {
        Some(k) => k > 0,
        None => false,
    }
}

} // verus!
