//! Reading a whole chart: comma-separated tokens of tempo and resolution
//! markers, note groups and rests.

use vstd::prelude::*;

use crate::element::{Abort, ChartEvent, ChartEventModel, Note, NoteError, NoteErrorModel, Outcome};
use crate::note_parser::{lemma_note_never_stops, note_outcome, note_outcome_chars, notes_outcome_view};
use crate::slide::{lemma_prepend_notes_twice, prepend_notes};
use crate::text::{
    char_index_at_byte, char_index_at_byte_exec, chars_of, is_ascii_digit, plain_text,
    lemma_plain_subrange, lemma_split_on_plain, lemma_ascii_utf8_len, lemma_ascii_char_index,
    lemma_char_index_at_byte_from, lemma_utf8_len_nonneg, lemma_utf8_len_subrange,
    parse_decimal, parse_decimal_range, run_end, scan_run, split_chars, split_on, string_of,
    strip_white_space, utf8_len, utf8_len_range, without_white_space, CharClass,
};

verus! {

/// A note group that was left out of the chart, and why.
#[derive(Debug, Clone, PartialEq)]
pub struct TokenWarning {
    /// The position of the comma-separated token in the chart.
    pub index: usize,
    /// The token as the chart spells it, white space removed.
    pub token: String,
    pub error: NoteError,
}

pub struct TokenWarningModel {
    pub index: int,
    pub token: Seq<char>,
    pub error: NoteErrorModel,
}

impl View for TokenWarning {
    type V = TokenWarningModel;

    open spec fn view(&self) -> TokenWarningModel {
        TokenWarningModel { index: self.index as int, token: self.token@, error: self.error@ }
    }
}

/// The events of a chart and the note groups that it had to leave out.
#[derive(Debug, Clone, PartialEq)]
pub struct ChartParse {
    pub events: Vec<ChartEvent>,
    pub warnings: Vec<TokenWarning>,
}

pub open spec fn event_models(v: Seq<ChartEvent>) -> Seq<ChartEventModel> {
    v.map_values(|e: ChartEvent| e@)
}

pub open spec fn warning_models(v: Seq<TokenWarning>) -> Seq<TokenWarningModel> {
    v.map_values(|w: TokenWarning| w@)
}

/// A tempo marker `\((\d+(\.\d+)?)\)` (with `fraction`) or a resolution
/// marker `\{(\d+)\}` at `i`: where the match ends.
pub open spec fn marker_at(s: Seq<char>, i: int, open: char, close: char, fraction: bool) -> Option<int> {
    if 0 <= i < s.len() && s[i] == open {
        let j = run_end(s, i + 1, CharClass::Digit);
        if j > i + 1 && j < s.len() {
            if s[j] == close {
                Some(j + 1)
            } else if fraction && s[j] == '.' {
                let k = run_end(s, j + 1, CharClass::Digit);
                if k > j + 1 && k < s.len() && s[k] == close {
                    Some(k + 1)
                } else {
                    None
                }
            } else {
                None
            }
        } else {
            None
        }
    } else {
        None
    }
}

/// The leftmost marker in `s` from `i` on: (start, end).
pub open spec fn find_marker(s: Seq<char>, i: int, open: char, close: char, fraction: bool) -> Option<(int, int)>
    decreases s.len() - i,
{
    if i < 0 || i >= s.len() {
        None
    } else {
        match marker_at(s, i, open, close, fraction) {
            Some(e) => Some((i, e)),
            None => find_marker(s, i + 1, open, close, fraction),
        }
    }
}

/// Whether `f32` parsing accepts the text of a tempo marker: its digits are
/// all ASCII.
pub open spec fn is_ascii_decimal(t: Seq<char>) -> bool {
    forall|i: int| 0 <= i < t.len() ==> is_ascii_digit(#[trigger] t[i]) || t[i] == '.'
}

/// A token's tempo marker: the event it makes and the rest of the token, which
/// loses as many leading bytes as the marker has.
pub open spec fn after_tempo(t: Seq<char>) -> Result<(Seq<ChartEventModel>, Seq<char>), Abort> {
    match find_marker(t, 0, '(', ')', true) {
        Some((i, e)) => {
            let text = t.subrange(i + 1, e - 1);
            if is_ascii_decimal(text) {
                match char_index_at_byte(t, utf8_len(t.subrange(i, e))) {
                    Some(j) => Ok((seq![ChartEventModel::BpmChange(text)], t.subrange(j, t.len() as int))),
                    None => Err(Abort::SliceInsideChar),
                }
            } else {
                Ok((Seq::empty(), t))
            }
        },
        None => Ok((Seq::empty(), t)),
    }
}

/// A token's resolution marker, as [`after_tempo`] reads a tempo marker.
pub open spec fn after_resolution(t: Seq<char>) -> Result<(Seq<ChartEventModel>, Seq<char>), Abort> {
    match find_marker(t, 0, '{', '}', false) {
        Some((i, e)) => match parse_decimal(t.subrange(i + 1, e - 1), u32::MAX as int) {
            Some(v) => match char_index_at_byte(t, utf8_len(t.subrange(i, e))) {
                Some(j) => Ok(
                    (seq![ChartEventModel::ResolutionChange(v as u32)], t.subrange(j, t.len() as int)),
                ),
                None => Err(Abort::SliceInsideChar),
            },
            None => Ok((Seq::empty(), t)),
        },
        None => Ok((Seq::empty(), t)),
    }
}

/// The notes of the `/`-separated groups, read in order up to the first one
/// that is refused.
pub open spec fn note_groups(groups: Seq<Seq<char>>) -> Outcome<Seq<Note>, NoteErrorModel>
    decreases groups.len(),
{
    if groups.len() == 0 {
        Ok(Ok(Seq::empty()))
    } else {
        match note_outcome(groups[0]) {
            Err(abort) => Err(abort),
            Ok(Err(e)) => Ok(Err(e)),
            Ok(Ok(ns)) => prepend_notes(ns, note_groups(groups.drop_first())),
        }
    }
}

/// What one comma-separated token adds to the chart: its events, and the
/// reason its notes were refused.
pub open spec fn read_token(t: Seq<char>) -> Result<(Seq<ChartEventModel>, Option<NoteErrorModel>), Abort> {
    match after_tempo(t) {
        Err(abort) => Err(abort),
        Ok((tempo, rest)) => match after_resolution(rest) {
            Err(abort) => Err(abort),
            Ok((resolution, notes)) => if notes.len() == 0 {
                Ok((tempo + resolution + seq![ChartEventModel::Rest], None))
            } else {
                match note_groups(split_on(notes, '/')) {
                    Err(abort) => Err(abort),
                    Ok(Err(e)) => Ok((tempo + resolution, Some(e))),
                    Ok(Ok(ns)) => Ok((tempo + resolution + seq![ChartEventModel::NoteGroup(ns)], None)),
                }
            },
        },
    }
}

/// The events and warnings of a sequence of tokens, read in order.
pub open spec fn read_tokens(tokens: Seq<Seq<char>>) -> Result<(Seq<ChartEventModel>, Seq<TokenWarningModel>), Abort>
    decreases tokens.len(),
{
    if tokens.len() == 0 {
        Ok((Seq::empty(), Seq::empty()))
    } else {
        match read_tokens(tokens.drop_last()) {
            Err(abort) => Err(abort),
            Ok((events, warnings)) => match read_token(tokens.last()) {
                Err(abort) => Err(abort),
                Ok((more, None)) => Ok((events + more, warnings)),
                Ok((more, Some(e))) => Ok(
                    (
                        events + more,
                        warnings.push(
                            TokenWarningModel { index: tokens.len() - 1, token: tokens.last(), error: e },
                        ),
                    ),
                ),
            },
        }
    }
}

/// What a chart text reads as: white space is removed, the rest is cut at
/// every comma, and the tokens are read in order.
pub open spec fn read_chart(content: Seq<char>) -> Result<(Seq<ChartEventModel>, Seq<TokenWarningModel>), Abort> {
    read_tokens(split_on(without_white_space(content), ','))
}

pub open spec fn chart_parse_view(p: ChartParse) -> (Seq<ChartEventModel>, Seq<TokenWarningModel>) {
    (event_models(p.events@), warning_models(p.warnings@))
}


pub proof fn lemma_without_white_space_len(s: Seq<char>)
    ensures
        utf8_len(without_white_space(s)) <= utf8_len(s),
    decreases s.len(),
{
    if s.len() > 0 {
        lemma_without_white_space_len(s.drop_last());
        let w = without_white_space(s.drop_last());
        assert(w.push(s.last()).drop_last() =~= w);
    }
}

/// Once a prefix of the tokens stops the program, so do all the tokens.
pub proof fn lemma_read_tokens_abort(tokens: Seq<Seq<char>>, k: int)
    requires
        0 <= k <= tokens.len(),
        read_tokens(tokens.take(k)) is Err,
    ensures
        read_tokens(tokens) == read_tokens(tokens.take(k)),
    decreases tokens.len() - k,
{
    if k == tokens.len() {
        assert(tokens.take(k) =~= tokens);
    } else {
        assert(tokens.take(k + 1).drop_last() =~= tokens.take(k));
        lemma_read_tokens_abort(tokens, k + 1);
    }
}

pub proof fn lemma_split_pieces_len(s: Seq<char>, sep: char)
    ensures
        forall|k: int|
            0 <= k < split_on(s, sep).len() ==> 0 <= utf8_len(#[trigger] split_on(s, sep)[k])
                <= utf8_len(s),
    decreases s.len(),
{
    lemma_utf8_len_nonneg(s);
    if s.len() > 0 {
        lemma_split_pieces_len(s.drop_last(), sep);
        crate::text::lemma_split_on_len(s.drop_last(), sep);
        let p = split_on(s.drop_last(), sep);
        assert forall|k: int| 0 <= k < split_on(s, sep).len() implies 0 <= utf8_len(
            #[trigger] split_on(s, sep)[k],
        ) <= utf8_len(s) by {
            if s.last() == sep {
                if k < p.len() {
                    assert(split_on(s, sep)[k] == p[k]);
                } else {
                    assert(split_on(s, sep)[k] =~= Seq::<char>::empty());
                }
            } else if k < p.len() - 1 {
                assert(split_on(s, sep)[k] == p[k]);
            } else {
                let last = p.last();
                assert(split_on(s, sep)[k] == last.push(s.last()));
                assert(last.push(s.last()).drop_last() =~= last);
            }
            lemma_utf8_len_nonneg(split_on(s, sep)[k]);
        }
    }
}

fn marker_at_exec(s: &Vec<char>, i: usize, open: char, close: char, fraction: bool) -> (r: Option<usize>)
    requires
        i < s.len(),
    ensures
        match r {
            Some(e) => marker_at(s@, i as int, open, close, fraction) == Some(e as int) && i + 2 < e <= s.len(),
            None => marker_at(s@, i as int, open, close, fraction) is None,
        },
{
    if s[i] != open {
        return None;
    }
    let j = scan_run(s, i + 1, CharClass::Digit);
    if !(j > i + 1 && j < s.len()) {
        return None;
    }
    if s[j] == close {
        return Some(j + 1);
    }
    if fraction && s[j] == '.' {
        let k = scan_run(s, j + 1, CharClass::Digit);
        if k > j + 1 && k < s.len() && s[k] == close {
            return Some(k + 1);
        }
    }
    None
}

fn find_marker_exec(s: &Vec<char>, open: char, close: char, fraction: bool) -> (r: Option<(usize, usize)>)
    ensures
        match r {
            Some((i, e)) => find_marker(s@, 0, open, close, fraction) == Some((i as int, e as int))
                && i + 2 < e <= s.len(),
            None => find_marker(s@, 0, open, close, fraction) is None,
        },
{
    let mut i: usize = 0;
    while i < s.len()
        invariant
            i <= s.len(),
            find_marker(s@, 0, open, close, fraction) == find_marker(s@, i as int, open, close, fraction),
        decreases s.len() - i,
    {
        match marker_at_exec(s, i, open, close, fraction) {
            Some(e) => {
                return Some((i, e));
            },
            None => {},
        }
        i = i + 1;
    }
    None
}

fn ascii_decimal_range(s: &Vec<char>, lo: usize, hi: usize) -> (r: bool)
    requires
        lo <= hi <= s.len(),
    ensures
        r == is_ascii_decimal(s@.subrange(lo as int, hi as int)),
{
    let mut k = lo;
    while k < hi
        invariant
            lo <= k <= hi <= s.len(),
            forall|j: int| lo <= j < k ==> is_ascii_digit(#[trigger] s@[j]) || s@[j] == '.',
        decreases hi - k,
    {
        if !(('0' <= s[k] && s[k] <= '9') || s[k] == '.') {
            assert(!(is_ascii_digit(s@.subrange(lo as int, hi as int)[k - lo]) || s@.subrange(lo as int, hi as int)[k - lo] == '.'));
            return false;
        }
        k = k + 1;
    }
    assert forall|j: int| 0 <= j < hi - lo implies is_ascii_digit(
        #[trigger] s@.subrange(lo as int, hi as int)[j],
    ) || s@.subrange(lo as int, hi as int)[j] == '.' by {
        assert(s@.subrange(lo as int, hi as int)[j] == s@[lo + j]);
    }
    true
}

/// `s[lo..]` as a vector.
fn tail_from(s: &Vec<char>, lo: usize) -> (v: Vec<char>)
    requires
        lo <= s.len(),
    ensures
        v@ == s@.subrange(lo as int, s.len() as int),
{
    let mut v: Vec<char> = Vec::new();
    let mut k = lo;
    while k < s.len()
        invariant
            lo <= k <= s.len(),
            v@ == s@.subrange(lo as int, k as int),
        decreases s.len() - k,
    {
        v.push(s[k]);
        assert(s@.subrange(lo as int, k + 1) =~= s@.subrange(lo as int, k as int).push(s@[k as int]));
        k = k + 1;
    }
    v
}

/// Reads a token's leading marker, tempo or resolution: the events it makes
/// and the rest of the token.
fn read_marker(t: &Vec<char>, tempo: bool) -> (r: Result<(Vec<ChartEvent>, Vec<char>), Abort>)
    requires
        utf8_len(t@) <= usize::MAX,
    ensures
        match r {
            Ok((evs, rest)) => (if tempo {
                after_tempo(t@)
            } else {
                after_resolution(t@)
            }) == Ok::<(Seq<ChartEventModel>, Seq<char>), Abort>((event_models(evs@), rest@))
                && utf8_len(rest@) <= utf8_len(t@),
            Err(abort) => (if tempo {
                after_tempo(t@)
            } else {
                after_resolution(t@)
            }) == Err::<(Seq<ChartEventModel>, Seq<char>), Abort>(abort),
        },
{
    let (open, close) = if tempo {
        ('(', ')')
    } else {
        ('{', '}')
    };
    let mut evs: Vec<ChartEvent> = Vec::new();
    assert(event_models(evs@) =~= Seq::<ChartEventModel>::empty());
    let whole = tail_from(t, 0);
    assert(t@.subrange(0, t.len() as int) =~= t@);
    match find_marker_exec(t, open, close, tempo) {
        None => Ok((evs, whole)),
        Some((i, e)) => {
            let event = if tempo {
                if !ascii_decimal_range(t, i + 1, e - 1) {
                    return Ok((evs, whole));
                }
                ChartEvent::BpmChange(string_of(t, i + 1, e - 1))
            } else {
                match parse_decimal_range(t, i + 1, e - 1, u32::MAX as usize) {
                    Some(v) => ChartEvent::ResolutionChange(v as u32),
                    None => {
                        return Ok((evs, whole));
                    },
                }
            };
            proof {
                lemma_utf8_len_subrange(t@, i as int, e as int);
            }
            let bytes = utf8_len_range(t, i, e);
            match char_index_at_byte_exec(t, bytes) {
                None => Err(Abort::SliceInsideChar),
                Some(j) => {
                    proof {
                        lemma_char_index_at_byte_from(t@, bytes as int, 0);
                        lemma_utf8_len_subrange(t@, j as int, t.len() as int);
                    }
                    let rest = tail_from(t, j);
                    evs.push(event);
                    assert(event_models(evs@) =~= seq![event@]);
                    Ok((evs, rest))
                },
            }
        },
    }
}

fn note_groups_exec(groups: &Vec<Vec<char>>) -> (r: Outcome<Vec<Note>, NoteError>)
    ensures
        notes_outcome_view(r) == note_groups(groups.deep_view()),
{
    let ghost gs = groups.deep_view();
    let mut notes: Vec<Note> = Vec::new();
    let mut i: usize = 0;
    assert(gs.skip(0) =~= gs);
    proof {
        match note_groups(gs) {
            Ok(Ok(rest)) => {
                assert(notes@ + rest =~= rest);
            },
            _ => {},
        }
    }
    while i < groups.len()
        invariant
            i <= groups.len(),
            gs == groups.deep_view(),
            note_groups(gs) == prepend_notes(notes@, note_groups(gs.skip(i as int))),
        decreases groups.len() - i,
    {
        let ghost rest = gs.skip(i as int);
        assert(rest[0] == groups[i as int]@);
        assert(rest.drop_first() =~= gs.skip(i + 1));
        match note_outcome_chars(&groups[i]) {
            Err(abort) => {
                return Err(abort);
            },
            Ok(Err(e)) => {
                return Ok(Err(e));
            },
            Ok(Ok(ns)) => {
                let mut ns = ns;
                proof {
                    lemma_prepend_notes_twice(notes@, ns@, note_groups(gs.skip(i + 1)));
                }
                notes.append(&mut ns);
            },
        }
        i = i + 1;
    }
    proof {
        assert(gs.skip(i as int) =~= Seq::<Seq<char>>::empty());
        assert(notes@ + Seq::<Note>::empty() =~= notes@);
    }
    Ok(Ok(notes))
}

fn read_token_exec(t: &Vec<char>) -> (r: Result<(Vec<ChartEvent>, Option<NoteError>), Abort>)
    requires
        utf8_len(t@) <= usize::MAX,
    ensures
        match r {
            Ok((evs, None)) => read_token(t@) == Ok::<(Seq<ChartEventModel>, Option<NoteErrorModel>), Abort>(
                (event_models(evs@), None),
            ),
            Ok((evs, Some(e))) => read_token(t@) == Ok::<(Seq<ChartEventModel>, Option<NoteErrorModel>), Abort>(
                (event_models(evs@), Some(e@)),
            ),
            Err(abort) => read_token(t@) == Err::<(Seq<ChartEventModel>, Option<NoteErrorModel>), Abort>(abort),
        },
{
    let (mut evs, rest) = match read_marker(t, true) {
        Err(abort) => {
            return Err(abort);
        },
        Ok(x) => x,
    };
    let (mut evs2, notes) = match read_marker(&rest, false) {
        Err(abort) => {
            return Err(abort);
        },
        Ok(x) => x,
    };
    let ghost m1 = event_models(evs@);
    let ghost m2 = event_models(evs2@);
    evs.append(&mut evs2);
    assert(event_models(evs@) =~= m1 + m2);
    if notes.len() == 0 {
        evs.push(ChartEvent::Rest);
        assert(event_models(evs@) =~= m1 + m2 + seq![ChartEventModel::Rest]);
        return Ok((evs, None));
    }
    let groups = split_chars(&notes, '/');
    match note_groups_exec(&groups) {
        Err(abort) => Err(abort),
        Ok(Err(e)) => Ok((evs, Some(e))),
        Ok(Ok(ns)) => {
            let ghost nv = ns@;
            evs.push(ChartEvent::NoteGroup(ns));
            assert(event_models(evs@) =~= m1 + m2 + seq![ChartEventModel::NoteGroup(nv)]);
            Ok((evs, None))
        },
    }
}

/// Reads the text of a chart (a `maidata.txt`) into its events, with a
/// warning for each token whose notes were refused; `Err(abort)` where reading
/// the chart stops the program.
pub fn parse_chart_text(content: &str) -> (r: Result<ChartParse, Abort>)
    requires
        utf8_len(content@) <= usize::MAX,
    ensures
        match r {
            Ok(p) => read_chart(content@) == Ok::<(Seq<ChartEventModel>, Seq<TokenWarningModel>), Abort>(chart_parse_view(p)),
            Err(abort) => read_chart(content@) == Err::<(Seq<ChartEventModel>, Seq<TokenWarningModel>), Abort>(abort),
        },
{
    let raw = chars_of(content);
    let clean = strip_white_space(&raw);
    proof {
        lemma_without_white_space_len(content@);
        lemma_split_pieces_len(clean@, ',');
    }
    let tokens = split_chars(&clean, ',');
    let ghost ts = tokens.deep_view();
    let mut events: Vec<ChartEvent> = Vec::new();
    let mut warnings: Vec<TokenWarning> = Vec::new();
    let mut i: usize = 0;
    assert(ts.take(0) =~= Seq::<Seq<char>>::empty());
    assert(event_models(events@) =~= Seq::<ChartEventModel>::empty());
    assert(warning_models(warnings@) =~= Seq::<TokenWarningModel>::empty());
    while i < tokens.len()
        invariant
            i <= tokens.len(),
            ts == tokens.deep_view(),
            ts == split_on(without_white_space(content@), ','),
            forall|k: int| 0 <= k < ts.len() ==> utf8_len(#[trigger] ts[k]) <= usize::MAX,
            read_tokens(ts.take(i as int)) == Ok::<(Seq<ChartEventModel>, Seq<TokenWarningModel>), Abort>(
                (event_models(events@), warning_models(warnings@)),
            ),
        decreases tokens.len() - i,
    {
        assert(ts.take(i + 1).drop_last() =~= ts.take(i as int));
        assert(ts.take(i + 1).last() == tokens[i as int]@);
        assert(utf8_len(ts[i as int]) <= usize::MAX);
        match read_token_exec(&tokens[i]) {
            Err(abort) => {
                proof {
                    lemma_read_tokens_abort(ts, i + 1);
                }
                return Err(abort);
            },
            Ok((more, warning)) => {
                let ghost before = event_models(events@);
                let ghost more_v = event_models(more@);
                let mut more = more;
                events.append(&mut more);
                assert(event_models(events@) =~= before + more_v);
                match warning {
                    None => {},
                    Some(e) => {
                        let ghost wbefore = warning_models(warnings@);
                        let token = string_of(&tokens[i], 0, tokens[i].len());
                        assert(tokens[i as int]@.subrange(0, tokens[i as int]@.len() as int) =~= tokens[i as int]@);
                        let w = TokenWarning { index: i, token, error: e };
                        warnings.push(w);
                        assert(warning_models(warnings@) =~= wbefore.push(w@));
                    },
                }
            },
        }
        i = i + 1;
    }
    assert(ts.take(ts.len() as int) =~= ts);
    Ok(ChartParse { events, warnings })
}


// ---------------------------------------------------------------------------
// What every chart reading keeps.
// ---------------------------------------------------------------------------

/// How many events of `evs` end a token: note groups and rests.
pub open spec fn pause_count(evs: Seq<ChartEventModel>) -> int
    decreases evs.len(),
{
    if evs.len() == 0 {
        0
    } else {
        pause_count(evs.drop_last()) + if evs.last() is NoteGroup || evs.last() is Rest {
            1int
        } else {
            0int
        }
    }
}

pub proof fn lemma_pause_count_concat(a: Seq<ChartEventModel>, b: Seq<ChartEventModel>)
    ensures
        pause_count(a + b) == pause_count(a) + pause_count(b),
    decreases b.len(),
{
    if b.len() == 0 {
        assert(a + b =~= a);
    } else {
        assert((a + b).drop_last() =~= a + b.drop_last());
        lemma_pause_count_concat(a, b.drop_last());
    }
}

proof fn lemma_pause_count_one(e: ChartEventModel)
    ensures
        pause_count(seq![e]) == if e is NoteGroup || e is Rest {
            1int
        } else {
            0int
        },
{
    assert(seq![e].drop_last() =~= Seq::<ChartEventModel>::empty());
    assert(seq![e].last() == e);
    assert(pause_count(Seq::<ChartEventModel>::empty()) == 0);
}

proof fn lemma_marker_events(t: Seq<char>)
    ensures
        after_tempo(t) matches Ok((evs, _)) ==> pause_count(evs) == 0,
        after_resolution(t) matches Ok((evs, _)) ==> pause_count(evs) == 0,
{
    lemma_pause_count_one(ChartEventModel::BpmChange(Seq::empty()));
    match find_marker(t, 0, '(', ')', true) {
        Some((i, e)) => {
            lemma_pause_count_one(ChartEventModel::BpmChange(t.subrange(i + 1, e - 1)));
        },
        None => {},
    }
    match find_marker(t, 0, '{', '}', false) {
        Some((i, e)) => match parse_decimal(t.subrange(i + 1, e - 1), u32::MAX as int) {
            Some(v) => {
                lemma_pause_count_one(ChartEventModel::ResolutionChange(v as u32));
            },
            None => {},
        },
        None => {},
    }
}

/// A token ends in exactly one note group or rest, unless its notes are
/// refused, and then in none.
pub proof fn lemma_read_token_pauses(t: Seq<char>)
    ensures
        read_token(t) matches Ok((evs, err)) ==> pause_count(evs) == if err is None {
            1int
        } else {
            0int
        },
{
    lemma_marker_events(t);
    match after_tempo(t) {
        Ok((tempo, rest)) => {
            lemma_marker_events(rest);
            match after_resolution(rest) {
                Ok((resolution, notes)) => {
                    lemma_pause_count_concat(tempo, resolution);
                    lemma_pause_count_one(ChartEventModel::Rest);
                    lemma_pause_count_concat(tempo + resolution, seq![ChartEventModel::Rest]);
                    match note_groups(split_on(notes, '/')) {
                        Ok(Ok(ns)) => {
                            lemma_pause_count_one(ChartEventModel::NoteGroup(ns));
                            lemma_pause_count_concat(
                                tempo + resolution,
                                seq![ChartEventModel::NoteGroup(ns)],
                            );
                        },
                        _ => {},
                    }
                },
                _ => {},
            }
        },
        _ => {},
    }
}

/// Every comma-separated token is accounted for: it ends in one note group or
/// rest, or it has a warning; the warnings come in token order, each naming
/// its token.
pub proof fn lemma_read_tokens_accounts(tokens: Seq<Seq<char>>)
    ensures
        read_tokens(tokens) matches Ok((evs, ws)) ==> {
            &&& pause_count(evs) + ws.len() == tokens.len()
            &&& forall|k: int|
                0 <= k < ws.len() ==> 0 <= (#[trigger] ws[k]).index < tokens.len() && ws[k].token
                    == tokens[ws[k].index]
            &&& forall|j: int, k: int| 0 <= j < k < ws.len() ==> (#[trigger] ws[j]).index < (#[trigger] ws[k]).index
        },
    decreases tokens.len(),
{
    if tokens.len() > 0 {
        let prefix = tokens.drop_last();
        lemma_read_tokens_accounts(prefix);
        lemma_read_token_pauses(tokens.last());
        match read_tokens(prefix) {
            Ok((evs, ws)) => match read_token(tokens.last()) {
                Ok((more, err)) => {
                    lemma_pause_count_concat(evs, more);
                    assert forall|k: int| 0 <= k < ws.len() implies (#[trigger] ws[k]).index < tokens.len()
                        - 1 && ws[k].token == tokens[ws[k].index] by {
                        assert(prefix[ws[k].index] == tokens[ws[k].index]);
                    }
                },
                _ => {},
            },
            _ => {},
        }
    }
}

/// The notes of every comma-separated token of a chart are accounted for:
/// the note groups and rests among its events and its warnings number as many
/// as its tokens, one more than its commas once white space is removed.
pub proof fn lemma_chart_accounts_every_token(content: Seq<char>)
    ensures
        read_chart(content) matches Ok((evs, ws)) ==> pause_count(evs) + ws.len() == split_on(
            without_white_space(content),
            ',',
        ).len(),
{
    lemma_read_tokens_accounts(split_on(without_white_space(content), ','));
}

pub open spec fn has_no_white_space(s: Seq<char>) -> bool {
    forall|i: int| 0 <= i < s.len() ==> !crate::text::is_white_space(#[trigger] s[i])
}

proof fn lemma_without_white_space_clean(s: Seq<char>)
    ensures
        has_no_white_space(without_white_space(s)),
    decreases s.len(),
{
    if s.len() > 0 {
        lemma_without_white_space_clean(s.drop_last());
        let w = without_white_space(s.drop_last());
        if !crate::text::is_white_space(s.last()) {
            assert forall|i: int| 0 <= i < w.push(s.last()).len() implies !crate::text::is_white_space(
                #[trigger] w.push(s.last())[i],
            ) by {
                if i < w.len() {
                    assert(w.push(s.last())[i] == w[i]);
                }
            }
        }
    }
}

proof fn lemma_without_white_space_keeps(s: Seq<char>)
    requires
        has_no_white_space(s),
    ensures
        without_white_space(s) == s,
    decreases s.len(),
{
    if s.len() > 0 {
        assert(has_no_white_space(s.drop_last())) by {
            assert forall|i: int| 0 <= i < s.drop_last().len() implies !crate::text::is_white_space(
                #[trigger] s.drop_last()[i],
            ) by {
                assert(s.drop_last()[i] == s[i]);
            }
        }
        lemma_without_white_space_keeps(s.drop_last());
        assert(!crate::text::is_white_space(s[s.len() - 1]));
        assert(s.drop_last().push(s.last()) =~= s);
    }
}

/// White space means nothing to a chart: a chart reads the same with its
/// white space removed.
pub proof fn lemma_white_space_is_ignored(content: Seq<char>)
    ensures
        read_chart(without_white_space(content)) == read_chart(content),
{
    lemma_without_white_space_clean(content);
    lemma_without_white_space_keeps(without_white_space(content));
}

/// Two chart texts that differ only in white space read the same, and the
/// text with its white space removed is no longer in bytes than the text, so
/// it can be read wherever the text can.
pub proof fn lemma_white_space_differences(c1: Seq<char>, c2: Seq<char>)
    requires
        without_white_space(c1) == without_white_space(c2),
    ensures
        read_chart(c1) == read_chart(c2),
        utf8_len(without_white_space(c1)) <= utf8_len(c1),
{
    lemma_white_space_is_ignored(c1);
    lemma_white_space_is_ignored(c2);
    lemma_without_white_space_len(c1);
}


pub proof fn lemma_find_marker(t: Seq<char>, i: int, open: char, close: char, fraction: bool)
    ensures
        find_marker(t, i, open, close, fraction) matches Some((a, e)) ==> 0 <= a < e <= t.len(),
    decreases t.len() - i,
{
    if 0 <= i < t.len() {
        lemma_find_marker(t, i + 1, open, close, fraction);
    }
}

/// In plain text a marker is cut off between characters: its token's
/// markers never stop the program, and what is left of the token is plain.
pub proof fn lemma_markers_never_stop(t: Seq<char>)
    requires
        plain_text(t),
    ensures
        after_tempo(t) matches Ok((_, rest)) && plain_text(rest),
        after_resolution(t) matches Ok((_, rest)) && plain_text(rest),
{
    lemma_find_marker(t, 0, '(', ')', true);
    match find_marker(t, 0, '(', ')', true) {
        Some((i, e)) => {
            lemma_plain_subrange(t, i, e);
            lemma_ascii_utf8_len(t.subrange(i, e));
            lemma_ascii_char_index(t, e - i, 0);
            lemma_plain_subrange(t, e - i, t.len() as int);
        },
        None => {},
    }
    lemma_find_marker(t, 0, '{', '}', false);
    match find_marker(t, 0, '{', '}', false) {
        Some((i, e)) => {
            lemma_plain_subrange(t, i, e);
            lemma_ascii_utf8_len(t.subrange(i, e));
            lemma_ascii_char_index(t, e - i, 0);
            lemma_plain_subrange(t, e - i, t.len() as int);
        },
        None => {},
    }
}

pub proof fn lemma_note_groups_never_stop(groups: Seq<Seq<char>>)
    requires
        forall|k: int| 0 <= k < groups.len() ==> plain_text(#[trigger] groups[k]),
    ensures
        note_groups(groups) !is Err,
    decreases groups.len(),
{
    if groups.len() > 0 {
        lemma_note_never_stops(groups[0]);
        let rest = groups.drop_first();
        assert forall|k: int| 0 <= k < rest.len() implies plain_text(#[trigger] rest[k]) by {
            assert(rest[k] == groups[k + 1]);
        }
        lemma_note_groups_never_stop(rest);
    }
}

pub proof fn lemma_token_never_stops(t: Seq<char>)
    requires
        plain_text(t),
    ensures
        read_token(t) is Ok,
{
    lemma_markers_never_stop(t);
    match after_tempo(t) {
        Ok((_, rest)) => {
            lemma_markers_never_stop(rest);
            match after_resolution(rest) {
                Ok((_, notes)) => {
                    lemma_split_on_plain(notes, '/');
                    lemma_note_groups_never_stop(split_on(notes, '/'));
                },
                Err(_) => {},
            }
        },
        Err(_) => {},
    }
}

pub proof fn lemma_tokens_never_stop(tokens: Seq<Seq<char>>)
    requires
        forall|k: int| 0 <= k < tokens.len() ==> plain_text(#[trigger] tokens[k]),
    ensures
        read_tokens(tokens) is Ok,
    decreases tokens.len(),
{
    if tokens.len() > 0 {
        let init = tokens.drop_last();
        assert forall|k: int| 0 <= k < init.len() implies plain_text(#[trigger] init[k]) by {
            assert(init[k] == tokens[k]);
        }
        lemma_tokens_never_stop(init);
        lemma_token_never_stops(tokens.last());
    }
}

/// A chart never stops the program when, its white space removed, it is
/// ASCII, every number in it is below `usize::MAX`, no digit follows a `]`
/// and no `0` follows a `w`.
pub proof fn lemma_plain_chart_never_stops(content: Seq<char>)
    requires
        plain_text(without_white_space(content)),
    ensures
        read_chart(content) is Ok,
{
    lemma_split_on_plain(without_white_space(content), ',');
    lemma_tokens_never_stop(split_on(without_white_space(content), ','));
}


/// An empty token is a rest; `{d}` with a one-digit `d` changes the
/// resolution to `d` and rests.
pub proof fn lemma_token_forms(d: char)
    requires
        is_ascii_digit(d),
    ensures
        read_token(Seq::<char>::empty()) == Ok::<(Seq<ChartEventModel>, Option<NoteErrorModel>), Abort>(
            (seq![ChartEventModel::Rest], None),
        ),
        read_token(seq!['{', d, '}']) == Ok::<(Seq<ChartEventModel>, Option<NoteErrorModel>), Abort>(
            (seq![ChartEventModel::ResolutionChange(crate::text::digit_value(d) as u32), ChartEventModel::Rest], None),
        ),
{
    let e = Seq::<char>::empty();
    assert(find_marker(e, 0, '(', ')', true) is None);
    assert(find_marker(e, 0, '{', '}', false) is None);
    assert(Seq::<ChartEventModel>::empty() + Seq::<ChartEventModel>::empty() + seq![ChartEventModel::Rest]
        =~= seq![ChartEventModel::Rest]);
    let s = seq!['{', d, '}'];
    assert(marker_at(s, 2, '(', ')', true) is None);
    assert(marker_at(s, 1, '(', ')', true) is None);
    assert(marker_at(s, 0, '(', ')', true) is None);
    assert(find_marker(s, 3, '(', ')', true) is None);
    assert(find_marker(s, 2, '(', ')', true) is None);
    assert(find_marker(s, 1, '(', ')', true) is None);
    assert(find_marker(s, 0, '(', ')', true) is None);
    assert(run_end(s, 2, CharClass::Digit) == 2);
    assert(run_end(s, 1, CharClass::Digit) == 2);
    assert(marker_at(s, 0, '{', '}', false) == Some(3int));
    assert(find_marker(s, 0, '{', '}', false) == Some((0int, 3int)));
    assert(s.subrange(1, 2) =~= seq![d]);
    crate::tap::lemma_single_digit(d);
    assert(crate::text::ascii_text(s)) by {
        assert forall|k: int| 0 <= k < s.len() implies (#[trigger] s[k] as u32) < 128 by {
            if k == 1 {
                assert('0' <= d && d <= '9');
            }
        }
    }
    assert(s.subrange(0, 3) =~= s);
    lemma_ascii_utf8_len(s);
    lemma_ascii_char_index(s, 3, 0);
    assert(s.subrange(3, 3) =~= e);
    assert(Seq::<ChartEventModel>::empty() + seq![ChartEventModel::ResolutionChange(crate::text::digit_value(d) as u32)] + seq![ChartEventModel::Rest]
        =~= seq![ChartEventModel::ResolutionChange(crate::text::digit_value(d) as u32), ChartEventModel::Rest]);
}


/// A token's markers stay in the chart whatever becomes of its notes: the
/// events a token adds begin with its tempo event, if it has one, and then
/// its resolution event, if it has one, also where its notes are refused.
pub proof fn lemma_token_keeps_its_markers(t: Seq<char>)
    ensures
        read_token(t) matches Ok((evs, _)) ==> (after_tempo(t) matches Ok((tempo, rest)) && after_resolution(
            rest,
        ) matches Ok((res, _)) && evs.len() >= tempo.len() + res.len() && evs.take((tempo.len() + res.len()) as int)
            == tempo + res),
{
    match after_tempo(t) {
        Ok((tempo, rest)) => match after_resolution(rest) {
            Ok((res, notes)) => {
                let n = (tempo.len() + res.len()) as int;
                if notes.len() == 0 {
                    assert((tempo + res + seq![ChartEventModel::Rest]).take(n) =~= tempo + res);
                } else {
                    match note_groups(split_on(notes, '/')) {
                        Ok(Ok(ns)) => {
                            assert((tempo + res + seq![ChartEventModel::NoteGroup(ns)]).take(n) =~= tempo + res);
                        },
                        Ok(Err(_)) => {
                            assert((tempo + res).take(n) =~= tempo + res);
                        },
                        Err(_) => {},
                    }
                }
            },
            Err(_) => {},
        },
        Err(_) => {},
    }
}

/// A refused token adds its markers' events and nothing else.
pub proof fn lemma_refused_token_keeps_only_its_markers(t: Seq<char>)
    ensures
        read_token(t) matches Ok((evs, Some(_))) ==> (after_tempo(t) matches Ok((tempo, rest))
            && after_resolution(rest) matches Ok((res, _)) && evs == tempo + res),
{
}

} // verus!
