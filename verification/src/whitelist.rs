//! The date whitelist: which columns hold calendar serials.
//!
//! A whitelist is written as a comma-separated text. It is read once into one
//! of four modes, and the header row then gives one flag per column.

use crate::order::{ascending, holds_sorted, is_ascending, sorted_texts};
use crate::sheet::texts;
use crate::text::{
    chars_of, contains, decimal, has_part, index_text, parse_bounded, parse_number, text_of,
    trim_bounds, trimmed,
};
use vstd::prelude::*;
use vstd::string::*;

verus! {

/// A whitelist, read.
#[derive(Debug, Clone)]
pub enum WhitelistSpec {
    /// Every column is a date candidate.
    All,
    /// No column is.
    Nothing,
    /// The columns at these positions are; each entry is a numeral as it was
    /// written, and the entries stand in ascending order of their texts.
    IndexSet(Vec<String>),
    /// The columns whose lowercased header contains one of these texts are.
    PatternSet(Vec<String>),
}

/// The mathematical content of a `WhitelistSpec`.
pub enum WhitelistModel {
    All,
    Nothing,
    IndexSet(Seq<Seq<char>>),
    PatternSet(Seq<Seq<char>>),
}

impl View for WhitelistSpec {
    type V = WhitelistModel;

    open spec fn view(&self) -> WhitelistModel {
        match self {
            WhitelistSpec::All => WhitelistModel::All,
            WhitelistSpec::Nothing => WhitelistModel::Nothing,
            WhitelistSpec::IndexSet(t) => WhitelistModel::IndexSet(texts(t@)),
            WhitelistSpec::PatternSet(t) => WhitelistModel::PatternSet(texts(t@)),
        }
    }
}

impl WhitelistSpec {
    /// An index set is kept in ascending order.
    pub open spec fn wf(&self) -> bool {
        match self {
            WhitelistSpec::IndexSet(t) => ascending(texts(t@)),
            _ => true,
        }
    }

    /// Whether the whitelist is as `classify` takes it.
    pub fn is_well_formed(&self) -> (r: bool)
        ensures
            r == self.wf(),
    {
        match self {
            WhitelistSpec::IndexSet(t) => is_ascending(t),
            _ => true,
        }
    }
}

/// The lowercase form of a text as `str::to_lowercase` gives it, which
/// follows the Unicode case tables.
pub uninterp spec fn lowercase(s: Seq<char>) -> Seq<char>;

/// Calls `str::to_lowercase`. The result is the lowercase form of the
/// argument; nothing else is claimed of it.
#[verifier::external_body]
pub(crate) fn to_lower(s: &str) -> (r: String)
    ensures
        r@ == lowercase(s@),
{
    s.to_lowercase()
}

/// The parts of `s` between its commas, in order: one more than there are
/// commas, so the empty text has one empty part.
pub open spec fn split_commas(s: Seq<char>) -> Seq<Seq<char>>
    decreases s.len(),
{
    if s.len() == 0 {
        seq![Seq::<char>::empty()]
    } else {
        let before = split_commas(s.drop_last());
        if s.last() == ',' {
            before.push(Seq::<char>::empty())
        } else {
            before.drop_last().push(before.last().push(s.last()))
        }
    }
}

/// The tokens of a whitelist text: its comma-separated parts, each trimmed.
pub open spec fn tokens_of(s: Seq<char>) -> Seq<Seq<char>> {
    let parts = split_commas(s);
    Seq::new(parts.len(), |i: int| trimmed(parts[i]))
}

/// A token that names a column position: a numeral of an unsigned 16-bit
/// integer.
pub open spec fn is_index(token: Seq<char>) -> bool {
    parse_bounded(token, 0, u16::MAX as int).is_some()
}

/// The mode that a lowercased whitelist text stands for.
pub open spec fn mode_of(lower: Seq<char>) -> WhitelistModel {
    let tokens = tokens_of(lower);
    if lower == seq!['a', 'l', 'l'] {
        WhitelistModel::All
    } else if lower == seq!['n', 'o', 'n', 'e'] {
        WhitelistModel::Nothing
    } else if forall|i: int| 0 <= i < tokens.len() ==> is_index(#[trigger] tokens[i]) {
        WhitelistModel::IndexSet(tokens)
    } else {
        WhitelistModel::PatternSet(tokens)
    }
}

/// `model` holds what `mode` holds, an index set in ascending order.
pub open spec fn reads_as(model: WhitelistModel, mode: WhitelistModel) -> bool {
    match mode {
        WhitelistModel::IndexSet(written) => match model {
            WhitelistModel::IndexSet(kept) => ascending(kept) && kept.to_multiset()
                == written.to_multiset(),
            _ => false,
        },
        _ => model == mode,
    }
}

/// Some pattern is part of `name`.
pub open spec fn any_part(name: Seq<char>, patterns: Seq<Seq<char>>) -> bool {
    exists|j: int| 0 <= j < patterns.len() && contains(name, #[trigger] patterns[j])
}

/// The flag of the column at `position` whose header reads `name`.
pub open spec fn flag_of(mode: WhitelistModel, position: int, name: Seq<char>) -> bool {
    match mode {
        WhitelistModel::All => true,
        WhitelistModel::Nothing => false,
        WhitelistModel::IndexSet(t) => t.contains(decimal(position)),
        WhitelistModel::PatternSet(t) => any_part(lowercase(name), t),
    }
}

/// The flags of a header row.
pub open spec fn flags_of(mode: WhitelistModel, header: Seq<Seq<char>>) -> Seq<bool> {
    Seq::new(header.len(), |i: int| flag_of(mode, i, header[i]))
}

/// Splits `chars` at its commas and trims each part.
pub fn tokens(chars: &Vec<char>) -> (out: Vec<String>)
    ensures
        texts(out@) == tokens_of(chars@),
{
    let n = chars.len();
    let mut parts: Vec<Vec<char>> = Vec::new();
    let mut current: Vec<char> = Vec::new();
    let mut i: usize = 0;
    assert(chars@.subrange(0, 0) =~= Seq::<char>::empty());
    assert(split_commas(Seq::<char>::empty()) =~= Seq::new(0, |k: int| parts@[k]@).push(current@));
    while i < n
        invariant
            i <= n == chars.len(),
            split_commas(chars@.subrange(0, i as int)) == Seq::new(
                parts@.len(),
                |k: int| parts@[k]@,
            ).push(current@),
        decreases n - i,
    {
        let c = chars[i];
        let ghost before = chars@.subrange(0, i as int);
        let ghost after = chars@.subrange(0, i + 1);
        let ghost done = Seq::new(parts@.len(), |k: int| parts@[k]@);
        proof {
            assert(after.drop_last() =~= before);
            assert(after.last() == c);
            assert(done.push(current@).drop_last() =~= done);
        }
        if c == ',' {
            parts.push(current);
            current = Vec::new();
            assert(Seq::new(parts@.len(), |k: int| parts@[k]@) =~= done.push(
                split_commas(before).last(),
            ));
            assert(current@ =~= Seq::<char>::empty());
        } else {
            current.push(c);
            assert(Seq::new(parts@.len(), |k: int| parts@[k]@) =~= done);
        }
        i += 1;
    }
    assert(chars@.subrange(0, n as int) =~= chars@);
    parts.push(current);
    let mut out: Vec<String> = Vec::new();
    let mut j: usize = 0;
    while j < parts.len()
        invariant
            j <= parts.len(),
            out.len() == j,
            split_commas(chars@) == Seq::new(parts@.len(), |k: int| parts@[k]@),
            forall|k: int| 0 <= k < j ==> out@[k]@ == trimmed(parts@[k]@),
        decreases parts.len() - j,
    {
        let bounds = trim_bounds(&parts[j]);
        out.push(text_of(&parts[j], bounds.0, bounds.1));
        j += 1;
    }
    assert(texts(out@) =~= tokens_of(chars@));
    out
}

/// Whether every token names a column position.
pub fn all_indices(tokens: &Vec<String>) -> (r: bool)
    ensures
        r == forall|i: int| 0 <= i < tokens.len() ==> is_index(#[trigger] texts(tokens@)[i]),
{
    let mut i: usize = 0;
    while i < tokens.len()
        invariant
            i <= tokens.len(),
            forall|k: int| 0 <= k < i ==> is_index(#[trigger] texts(tokens@)[k]),
        decreases tokens.len() - i,
    {
        let chars = chars_of(tokens[i].as_str());
        if parse_number(&chars, 0, 0xffff).is_none() {
            assert(!is_index(texts(tokens@)[i as int]));
            return false;
        }
        i += 1;
    }
    true
}

/// Reads a whitelist text.
///
/// The text is lowercased first. `all` and `none` are modes of their own.
/// Otherwise the text is split at its commas and each part trimmed: where
/// every token is a column position the tokens are an index set, else they
/// are patterns.
pub fn parse_spec(raw: &str) -> (spec: WhitelistSpec)
    ensures
        spec.wf(),
        reads_as(spec@, mode_of(lowercase(raw@))),
{
    let lower = to_lower(raw);
    let chars = chars_of(lower.as_str());
    if chars.len() == 3 && chars[0] == 'a' && chars[1] == 'l' && chars[2] == 'l' {
        assert(chars@ =~= seq!['a', 'l', 'l']);
        return WhitelistSpec::All;
    }
    if chars.len() == 4 && chars[0] == 'n' && chars[1] == 'o' && chars[2] == 'n' && chars[3]
        == 'e' {
        assert(chars@ =~= seq!['n', 'o', 'n', 'e']);
        return WhitelistSpec::Nothing;
    }
    assert(chars@ != seq!['a', 'l', 'l']) by {
        if chars@ == seq!['a', 'l', 'l'] {
            assert(seq!['a', 'l', 'l'].len() == 3);
            assert(seq!['a', 'l', 'l'][0] == 'a');
        }
    }
    assert(chars@ != seq!['n', 'o', 'n', 'e']) by {
        if chars@ == seq!['n', 'o', 'n', 'e'] {
            assert(seq!['n', 'o', 'n', 'e'].len() == 4);
            assert(seq!['n', 'o', 'n', 'e'][0] == 'n');
        }
    }
    let tokens = tokens(&chars);
    if all_indices(&tokens) {
        WhitelistSpec::IndexSet(sorted_texts(&tokens))
    } else {
        WhitelistSpec::PatternSet(tokens)
    }
}

/// Whether one of `patterns` is part of `name`.
pub fn holds_part(name: &Vec<char>, patterns: &Vec<String>) -> (r: bool)
    ensures
        r == any_part(name@, texts(patterns@)),
{
    let mut i: usize = 0;
    while i < patterns.len()
        invariant
            i <= patterns.len(),
            forall|k: int| 0 <= k < i ==> !contains(name@, #[trigger] texts(patterns@)[k]),
        decreases patterns.len() - i,
    {
        let pattern = chars_of(patterns[i].as_str());
        if has_part(name, &pattern) {
            assert(contains(name@, texts(patterns@)[i as int]));
            return true;
        }
        i += 1;
    }
    false
}

/// The date flags of a header row, one per column, in the columns' order.
pub fn classify(spec: &WhitelistSpec, header: &Vec<String>) -> (flags: Vec<bool>)
    requires
        spec.wf(),
    ensures
        flags@ == flags_of(spec@, texts(header@)),
{
    let mut flags: Vec<bool> = Vec::new();
    let mut i: usize = 0;
    while i < header.len()
        invariant
            i <= header.len(),
            spec.wf(),
            flags.len() == i,
            forall|k: int| 0 <= k < i ==> flags@[k] == flag_of(spec@, k, #[trigger] header@[k]@),
        decreases header.len() - i,
    {
        let flag = match spec {
            WhitelistSpec::All => true,
            WhitelistSpec::Nothing => false,
            WhitelistSpec::IndexSet(entries) => {
                let numeral = index_text(i);
                holds_sorted(entries, numeral.as_str())
            },
            WhitelistSpec::PatternSet(patterns) => {
                let lower = to_lower(header[i].as_str());
                let name = chars_of(lower.as_str());
                holds_part(&name, patterns)
            },
        };
        flags.push(flag);
        i += 1;
    }
    assert(flags@ =~= flags_of(spec@, texts(header@)));
    flags
}

/// The order in which an index set is kept does not change any flag.
pub proof fn law_order_is_immaterial(
    model: WhitelistModel,
    mode: WhitelistModel,
    header: Seq<Seq<char>>,
)
    requires
        reads_as(model, mode),
    ensures
        flags_of(model, header) == flags_of(mode, header),
{
    match (model, mode) {
        (WhitelistModel::IndexSet(kept), WhitelistModel::IndexSet(written)) => {
            kept.to_multiset_ensures();
            written.to_multiset_ensures();
            assert forall|i: int| 0 <= i < header.len() implies flag_of(model, i, header[i])
                == flag_of(mode, i, header[i]) by {
                let x = decimal(i);
                assert(kept.contains(x) <==> kept.to_multiset().count(x) > 0);
                assert(written.contains(x) <==> written.to_multiset().count(x) > 0);
            }
            assert(flags_of(model, header) =~= flags_of(mode, header));
        },
        _ => {},
    }
}

/// A header row gets one flag per column, whatever the mode.
pub proof fn law_one_flag_per_column(mode: WhitelistModel, header: Seq<Seq<char>>)
    ensures
        flags_of(mode, header).len() == header.len(),
{
}

/// The whitelist that reads `all` in lowercase flags each column of any
/// header.
pub proof fn law_all_flags_every_column(lower: Seq<char>, header: Seq<Seq<char>>)
    requires
        lower == seq!['a', 'l', 'l'],
    ensures
        mode_of(lower) == WhitelistModel::All,
        flags_of(mode_of(lower), header).len() == header.len(),
        forall|i: int| 0 <= i < header.len() ==> flags_of(mode_of(lower), header)[i],
{
}

/// The whitelist that reads `none` in lowercase flags no column of any
/// header.
pub proof fn law_none_flags_no_column(lower: Seq<char>, header: Seq<Seq<char>>)
    requires
        lower == seq!['n', 'o', 'n', 'e'],
    ensures
        mode_of(lower) == WhitelistModel::Nothing,
        flags_of(mode_of(lower), header).len() == header.len(),
        forall|i: int| 0 <= i < header.len() ==> !flags_of(mode_of(lower), header)[i],
{
    assert(lower.len() == 4);
    assert(seq!['a', 'l', 'l'].len() == 3);
}

} // verus!
