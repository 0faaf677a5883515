//! Log rows: writing an episode as six cells, reading one back with a
//! default for each malformed cell, numbering episodes, and resuming a
//! session from the latest one.

use vstd::prelude::*;
use crate::codec::{
    byte_ints, ints_of,
    breakdown_of, breakdown_text, item_fits, lemma_breakdown_round_trip,
    lemma_list_round_trip, list_of, list_text, nat_token, push_breakdown, push_list, read_breakdown,
    read_list, read_nat, ItemKind, list_items, item_token,
};
use crate::game::{Game, MAX_STEPS, NUM_CHESTS};
use crate::player::{zero_count, Player, ScoreCount, ESTIMATE_BOUND};
use crate::stats::EpisodeEntry;
use crate::text::{chars_of, dec, dec_int, is_digit, lemma_dec_round_trip, push_dec, push_dec_int, string_of};

verus! {

/// Learning rate recorded with every loaded episode, in millionths (0.1).
pub const RECORDED_LEARNING_RATE: u32 = 100_000;

/// The texts of a row's cells.
pub open spec fn cells_view(v: Seq<String>) -> Seq<Seq<char>> {
    v.map_values(|f: String| f@)
}

/// The cells of the first CSV record in `line`, as csv's reader finds them.
pub uninterp spec fn csv_fields_of(line: Seq<char>) -> Option<Seq<Seq<char>>>;

/// The line that csv's writer makes of one record with the cells `cells`.
pub uninterp spec fn csv_line_of(cells: Seq<Seq<char>>) -> Option<Seq<char>>;

/// Relies on csv's `Reader` (no header row, records of any length) over the
/// bytes of `line`: the cells of its first record, or none where it has no
/// record or the record cannot be read. The result depends on the line alone.
#[verifier::external_body]
fn csv_fields(line: &str) -> (r: Option<Vec<String>>)
    ensures
        r matches Some(v) ==> csv_fields_of(line@) == Some(cells_view(v@)),
        r is None ==> csv_fields_of(line@) is None,
{
    let mut reader = csv::ReaderBuilder::new().has_headers(false).flexible(true).from_reader(line.as_bytes());
    match reader.records().next() {
        Some(Ok(record)) => Some(record.iter().map(|c| c.to_string()).collect()),
        _ => None,
    }
}

/// Relies on csv's `Writer` (no header row) writing into memory: the record
/// of `cells` as one terminated line, quoted where csv quotes, or none where
/// writing fails. The result depends on the cells alone.
#[verifier::external_body]
fn csv_line(cells: &Vec<String>) -> (r: Option<String>)
    ensures
        r matches Some(l) ==> csv_line_of(cells_view(cells@)) == Some(l@),
        r is None ==> csv_line_of(cells_view(cells@)) is None,
{
    let mut writer = csv::WriterBuilder::new().has_headers(false).from_writer(Vec::new());
    if writer.write_record(cells).is_err() {
        return None;
    }
    match writer.into_inner() {
        Ok(bytes) => String::from_utf8(bytes).ok(),
        Err(_) => None,
    }
}

/// The line that starts a new log: the column names as one CSV record.
pub fn header_line() -> (r: Option<String>)
    ensures
        r matches Some(l) ==> csv_line_of(header_cells()) == Some(l@),
        r is None ==> csv_line_of(header_cells()) is None,
{
    csv_line(&header_row())
}

/// Column names of a new log's first row.
pub open spec fn header_cells() -> Seq<Seq<char>> {
    seq!["Episode"@, "Score"@, "Steps"@, "Estimates"@, "BreakDown"@, "Action Selections"@]
}

/// The first row of a new log: the names of its six columns.
pub fn header_row() -> (r: Vec<String>)
    ensures
        cells_view(r@) == header_cells(),
{
    let mut r: Vec<String> = Vec::new();
    r.push(string_of(&chars_of("Episode")));
    r.push(string_of(&chars_of("Score")));
    r.push(string_of(&chars_of("Steps")));
    r.push(string_of(&chars_of("Estimates")));
    r.push(string_of(&chars_of("BreakDown")));
    r.push(string_of(&chars_of("Action Selections")));
    assert(cells_view(r@) =~= header_cells());
    r
}

fn same_chars(a: &Vec<char>, b: &Vec<char>) -> (r: bool)
    ensures
        r == (a@ == b@),
{
    if a.len() != b.len() {
        return false;
    }
    let mut i: usize = 0;
    while i < a.len()
        invariant
            a@.len() == b@.len(),
            i <= a@.len(),
            forall|k: int| 0 <= k < i ==> a@[k] == b@[k],
        decreases a@.len() - i,
    {
        if a[i] != b[i] {
            return false;
        }
        i = i + 1;
    }
    assert(a@ =~= b@);
    true
}

/// Whether a log row is the header row rather than an episode.
pub fn is_header(fields: &Vec<String>) -> (r: bool)
    ensures
        r == (cells_view(fields@) == header_cells()),
{
    let header = header_row();
    if fields.len() != header.len() {
        assert(cells_view(fields@).len() != cells_view(header@).len());
        return false;
    }
    let mut i: usize = 0;
    while i < fields.len()
        invariant
            cells_view(header@) == header_cells(),
            fields@.len() == header@.len(),
            i <= fields@.len(),
            forall|k: int| 0 <= k < i ==> fields@[k]@ == header@[k]@,
        decreases fields@.len() - i,
    {
        let a = chars_of(fields[i].as_str());
        let b = chars_of(header[i].as_str());
        if !same_chars(&a, &b) {
            assert(cells_view(fields@)[i as int] != header_cells()[i as int]);
            return false;
        }
        i = i + 1;
    }
    assert(cells_view(fields@) =~= cells_view(header@));
    true
}

/// A cell that is a whole number up to `limit` and nothing else.
pub open spec fn whole_field(t: Seq<char>, limit: nat) -> Option<nat> {
    match nat_token(t, 0, limit) {
        Some((v, j)) => if j == t.len() { Some(v) } else { None },
        None => None,
    }
}

/// A cell that is a 32-bit signed whole number and nothing else.
pub open spec fn signed_field(t: Seq<char>) -> Option<int> {
    if t.len() > 0 && t[0] == '-' {
        match nat_token(t, 1, 0x8000_0000) {
            Some((v, j)) => if j == t.len() { Some(-v) } else { None },
            None => None,
        }
    } else {
        match nat_token(t, 0, 0x7fff_ffff) {
            Some((v, j)) => if j == t.len() { Some(v as int) } else { None },
            None => None,
        }
    }
}

/// Cell `k` of a row, empty where the row is shorter.
pub open spec fn cell(fs: Seq<Seq<char>>, k: int) -> Seq<char> {
    if 0 <= k < fs.len() { fs[k] } else { Seq::empty() }
}

/// One zero per chest.
pub open spec fn zero_estimates() -> Seq<int> {
    Seq::new(NUM_CHESTS as nat, |i: int| 0int)
}

/// One zero pick per step.
pub open spec fn zero_actions() -> Seq<int> {
    Seq::new(MAX_STEPS as nat, |i: int| 0int)
}

/// The estimates in a cell: a list of one decimal per chest, else all zero.
pub open spec fn decoded_estimates(t: Seq<char>) -> Seq<int> {
    match list_of(ItemKind::Fixed, t) {
        Some(vs) => if vs.len() == NUM_CHESTS { vs } else { zero_estimates() },
        None => zero_estimates(),
    }
}

/// The picks in a cell: a list of whole numbers up to 255, else a full
/// episode of zeros.
pub open spec fn decoded_actions(t: Seq<char>) -> Seq<int> {
    match list_of(ItemKind::Byte, t) {
        Some(vs) => vs,
        None => zero_actions(),
    }
}

/// The tally in a cell, else all zero.
pub open spec fn decoded_breakdown(t: Seq<char>) -> ScoreCount {
    match breakdown_of(t) {
        Some(sc) => sc,
        None => zero_count(),
    }
}

/// Whether `e` is what the row `fs` holds, each malformed or missing cell
/// standing for its default.
pub open spec fn decodes_to(fs: Seq<Seq<char>>, e: EpisodeEntry) -> bool {
    &&& e.episode == match whole_field(cell(fs, 0), u32::MAX as nat) { Some(v) => v, None => 0 }
    &&& e.score == match signed_field(cell(fs, 1)) { Some(v) => v, None => 0 }
    &&& e.steps == match whole_field(cell(fs, 2), u32::MAX as nat) { Some(v) => v, None => 0 }
    &&& ints_of(e.estimates@) == decoded_estimates(cell(fs, 3))
    &&& e.breakdown == decoded_breakdown(cell(fs, 4))
    &&& e.learning_rate == RECORDED_LEARNING_RATE
    &&& byte_ints(e.action_selections@) == decoded_actions(cell(fs, 5))
}

/// Whether an entry's estimates can be written: each within the estimate bound.
pub open spec fn estimates_fit(e: EpisodeEntry) -> bool {
    forall|i: int| 0 <= i < e.estimates@.len() ==> -ESTIMATE_BOUND <= #[trigger] e.estimates@[i] <= ESTIMATE_BOUND
}

/// The row that an entry is written as.
pub open spec fn encoded_fields(e: EpisodeEntry) -> Seq<Seq<char>> {
    seq![
        dec(e.episode as nat),
        dec_int(e.score as int),
        dec(e.steps as nat),
        list_text(ItemKind::Fixed, ints_of(e.estimates@)),
        breakdown_text(e.breakdown),
        list_text(ItemKind::Byte, byte_ints(e.action_selections@)),
    ]
}

/// End of the run of spaces that starts at `i`.
pub open spec fn spaces_end(s: Seq<char>, i: int) -> int
    decreases s.len() - i,
{
    if 0 <= i < s.len() && s[i] == ' ' { spaces_end(s, i + 1) } else { i }
}

/// The episode number in the first cell of a log line: a whole number, with
/// spaces around it allowed, before the first comma or the end.
pub open spec fn first_cell_id(s: Seq<char>) -> Option<nat> {
    match nat_token(s, spaces_end(s, 0), u32::MAX as nat) {
        Some((v, j)) => {
            let c = spaces_end(s, j);
            if c == s.len() || s[c] == ',' { Some(v) } else { None }
        },
        None => None,
    }
}

/// The number of the next episode of a log whose last line is `last`: one
/// past the number in that line, or 1 for a log with no line or no number
/// there; none after the largest number.
pub open spec fn next_id(last: Option<Seq<char>>) -> Option<int> {
    match last {
        None => Some(1),
        Some(s) => match first_cell_id(s) {
            Some(v) => if v < u32::MAX { Some(v + 1int) } else { None },
            None => Some(1),
        },
    }
}

proof fn lemma_list_items_fit(kind: ItemKind, s: Seq<char>, i: int)
    ensures
        list_items(kind, s, i) matches Some((vs, k)) ==> forall|m: int| 0 <= m < vs.len() ==> item_fits(kind, #[trigger] vs[m]),
    decreases s.len() - i,
{
    match item_token(kind, s, i) {
        None => {},
        Some((v, j)) => {
            if j > i && j < s.len() && s[j] == ',' {
                lemma_list_items_fit(kind, s, j + 1);
            }
        },
    }
}

proof fn lemma_list_of_fits(kind: ItemKind, s: Seq<char>, vs: Seq<int>)
    requires
        list_of(kind, s) == Some(vs),
    ensures
        forall|m: int| 0 <= m < vs.len() ==> item_fits(kind, #[trigger] vs[m]),
{
    lemma_list_items_fit(kind, s, crate::codec::ws_end(s, 0) + 1);
}

fn cell_chars(fields: &Vec<String>, k: usize) -> (r: Vec<char>)
    ensures
        r@ == cell(cells_view(fields@), k as int),
{
    if k < fields.len() {
        chars_of(fields[k].as_str())
    } else {
        Vec::new()
    }
}

fn read_whole(t: &Vec<char>) -> (r: u32)
    ensures
        r == match whole_field(t@, u32::MAX as nat) { Some(v) => v, None => 0 },
{
    match read_nat(t, 0, u32::MAX as u64) {
        Some((v, j)) => if j == t.len() { v as u32 } else { 0 },
        None => 0,
    }
}

fn read_signed(t: &Vec<char>) -> (r: i32)
    ensures
        r == match signed_field(t@) { Some(v) => v, None => 0 },
{
    if t.len() > 0 && t[0] == '-' {
        match read_nat(t, 1, 0x8000_0000) {
            Some((v, j)) => if j == t.len() { (-(v as i64)) as i32 } else { 0 },
            None => 0,
        }
    } else {
        match read_nat(t, 0, 0x7fff_ffff) {
            Some((v, j)) => if j == t.len() { v as i32 } else { 0 },
            None => 0,
        }
    }
}

impl EpisodeEntry {
    /// Reads an entry from the cells of one log row; each cell that is
    /// missing or malformed is replaced by its default (zero numbers, zero
    /// estimates, a zero tally, a full episode of zero picks).
    pub fn decode(fields: &Vec<String>) -> (e: EpisodeEntry)
        ensures
            decodes_to(cells_view(fields@), e),
            estimates_fit(e),
            e.estimates@.len() == NUM_CHESTS,
    {
        let c0 = cell_chars(fields, 0);
        let c1 = cell_chars(fields, 1);
        let c2 = cell_chars(fields, 2);
        let c3 = cell_chars(fields, 3);
        let c4 = cell_chars(fields, 4);
        let c5 = cell_chars(fields, 5);
        let estimates: Vec<i64> = match read_list(ItemKind::Fixed, &c3) {
            Some(v) => if v.len() == NUM_CHESTS {
                v
            } else {
                vec![0i64; NUM_CHESTS]
            },
            None => vec![0i64; NUM_CHESTS],
        };
        assert(ints_of(estimates@) =~= decoded_estimates(c3@)) by {
            if !(list_of(ItemKind::Fixed, c3@) matches Some(vs) && vs.len() == NUM_CHESTS) {
                assert(ints_of(estimates@) =~= zero_estimates());
            }
        }
        assert forall|i: int| 0 <= i < estimates@.len() implies -ESTIMATE_BOUND <= #[trigger] estimates@[i] <= ESTIMATE_BOUND by {
            assert(ints_of(estimates@)[i] == estimates@[i] as int);
            match list_of(ItemKind::Fixed, c3@) {
                Some(vs) => {
                    lemma_list_of_fits(ItemKind::Fixed, c3@, vs);
                    if vs.len() == NUM_CHESTS {
                        assert(item_fits(ItemKind::Fixed, vs[i]));
                    }
                },
                None => {},
            }
        }
        let actions: Vec<u8> = match read_list(ItemKind::Byte, &c5) {
            Some(v) => {
                let ghost ints = ints_of(v@);
                proof {
                    lemma_list_of_fits(ItemKind::Byte, c5@, ints);
                }
                let mut out: Vec<u8> = Vec::new();
                let mut i: usize = 0;
                while i < v.len()
                    invariant
                        ints == ints_of(v@),
                        list_of(ItemKind::Byte, c5@) == Some(ints),
                        forall|m: int| 0 <= m < ints.len() ==> item_fits(ItemKind::Byte, #[trigger] ints[m]),
                        i <= v@.len(),
                        byte_ints(out@) == ints_of(v@).subrange(0, i as int),
                        out@.len() == i,
                    decreases v@.len() - i,
                {
                    assert(item_fits(ItemKind::Byte, ints[i as int]));
                    assert(ints[i as int] == v@[i as int] as int);
                    let ghost before = out@;
                    out.push(v[i] as u8);
                    assert(out@ == before.push(v@[i as int] as u8));
                    assert(byte_ints(out@)[i as int] == ints[i as int]);
                    assert(byte_ints(out@) =~= ints_of(v@).subrange(0, i as int + 1));
                    i = i + 1;
                }
                assert(ints_of(v@).subrange(0, i as int) =~= ints_of(v@));
                out
            },
            None => {
                let out = vec![0u8; MAX_STEPS as usize];
                assert(byte_ints(out@) =~= zero_actions());
                out
            },
        };
        let breakdown = match read_breakdown(&c4) {
            Some(sc) => sc,
            None => ScoreCount::new(),
        };
        EpisodeEntry {
            episode: read_whole(&c0),
            score: read_signed(&c1),
            steps: read_whole(&c2),
            estimates,
            breakdown,
            learning_rate: RECORDED_LEARNING_RATE,
            action_selections: actions,
        }
    }

    /// The cells of the log row that holds this entry: its number, score and
    /// steps, its estimates as a list of decimals, its tally as an object with
    /// five counts, and its picks as a list of whole numbers.
    pub fn encode(&self) -> (r: Vec<String>)
        requires
            estimates_fit(*self),
        ensures
            cells_view(r@) == encoded_fields(*self),
    {
        let mut c0: Vec<char> = Vec::new();
        push_dec(&mut c0, self.episode as u64);
        let mut c1: Vec<char> = Vec::new();
        push_dec_int(&mut c1, self.score as i64);
        let mut c2: Vec<char> = Vec::new();
        push_dec(&mut c2, self.steps as u64);
        let mut c3: Vec<char> = Vec::new();
        push_list(&mut c3, ItemKind::Fixed, &self.estimates);
        let mut c4: Vec<char> = Vec::new();
        push_breakdown(&mut c4, &self.breakdown);
        let mut wide: Vec<i64> = Vec::new();
        let mut i: usize = 0;
        while i < self.action_selections.len()
            invariant
                i <= self.action_selections@.len(),
                ints_of(wide@) == byte_ints(self.action_selections@).subrange(0, i as int),
                wide@.len() == i,
                forall|m: int| 0 <= m < wide@.len() ==> 0 <= #[trigger] wide@[m] <= 255,
            decreases self.action_selections@.len() - i,
        {
            let ghost before = wide@;
            wide.push(self.action_selections[i] as i64);
            assert(wide@ == before.push(self.action_selections@[i as int] as i64));
            assert(byte_ints(self.action_selections@)[i as int] == self.action_selections@[i as int] as int);
            assert(ints_of(wide@)[i as int] == self.action_selections@[i as int] as int);
            assert(ints_of(wide@) =~= byte_ints(self.action_selections@).subrange(0, i as int + 1));
            i = i + 1;
        }
        assert(ints_of(wide@) =~= byte_ints(self.action_selections@));
        let mut c5: Vec<char> = Vec::new();
        push_list(&mut c5, ItemKind::Byte, &wide);
        let mut r: Vec<String> = Vec::new();
        r.push(string_of(&c0));
        r.push(string_of(&c1));
        r.push(string_of(&c2));
        r.push(string_of(&c3));
        r.push(string_of(&c4));
        r.push(string_of(&c5));
        proof {
            assert(c0@ =~= dec(self.episode as nat));
            assert(c1@ =~= dec_int(self.score as int));
            assert(c2@ =~= dec(self.steps as nat));
            assert(c4@ =~= breakdown_text(self.breakdown));
        }
        assert(cells_view(r@) =~= encoded_fields(*self));
        r
    }
}

fn skip_spaces(s: &Vec<char>, i: usize) -> (r: usize)
    requires
        i <= s@.len(),
    ensures
        r as int == spaces_end(s@, i as int),
        i <= r <= s@.len(),
{
    let mut k: usize = i;
    while k < s.len() && s[k] == ' '
        invariant
            i <= k <= s@.len(),
            spaces_end(s@, i as int) == spaces_end(s@, k as int),
        decreases s@.len() - k,
    {
        k = k + 1;
    }
    k
}

/// The number of the next episode of a log whose last line is `last_line`
/// (`None` for a log that does not exist or is empty): one past the number in
/// the line's first cell, or 1 where that cell holds no number (a header);
/// `None` when the last number is the largest there can be.
pub fn next_episode_id(last_line: Option<&str>) -> (r: Option<u32>)
    ensures
        r matches Some(v) ==> next_id(match last_line { Some(l) => Some(l@), None => None }) == Some(v as int),
        r is None ==> next_id(match last_line { Some(l) => Some(l@), None => None }) is None,
{
    match last_line {
        None => Some(1),
        Some(line) => {
            let s = chars_of(line);
            let a = skip_spaces(&s, 0);
            match read_nat(&s, a, u32::MAX as u64) {
                Some((v, j)) => {
                    let c = skip_spaces(&s, j);
                    if c == s.len() || s[c] == ',' {
                        if v < u32::MAX as u64 {
                            Some((v + 1) as u32)
                        } else {
                            None
                        }
                    } else {
                        Some(1)
                    }
                },
                None => Some(1),
            }
        },
    }
}

/// Seeds a session from the latest logged episode: the agent takes its
/// estimates (where they are one in-bound value per chest) and the
/// environment its episode number as the count of episodes run.
pub fn resume(player: &mut Player, game: &mut Game, latest: &EpisodeEntry)
    requires
        old(player).wf(),
        old(game).wf(),
    ensures
        final(player).wf(),
        final(game).wf(),
        (latest.estimates@.len() == NUM_CHESTS && estimates_fit(*latest))
            ==> final(player).value_estimates@ == latest.estimates@,
        !(latest.estimates@.len() == NUM_CHESTS && estimates_fit(*latest))
            ==> final(player).value_estimates == old(player).value_estimates,
        *final(player) == (Player { value_estimates: final(player).value_estimates, ..*old(player) }),
        *final(game) == (Game { episodes_run: latest.episode, ..*old(game) }),
{
    let mut ok = latest.estimates.len() == NUM_CHESTS;
    let mut i: usize = 0;
    while i < latest.estimates.len()
        invariant
            i <= latest.estimates@.len(),
            ok ==> latest.estimates@.len() == NUM_CHESTS,
            ok ==> forall|m: int| 0 <= m < i ==> -ESTIMATE_BOUND <= #[trigger] latest.estimates@[m] <= ESTIMATE_BOUND,
            !ok ==> !(latest.estimates@.len() == NUM_CHESTS && estimates_fit(*latest)),
        decreases latest.estimates@.len() - i,
    {
        if latest.estimates[i] < -ESTIMATE_BOUND || latest.estimates[i] > ESTIMATE_BOUND {
            ok = false;
        }
        i = i + 1;
    }
    if ok {
        let mut est: Vec<i64> = Vec::new();
        let mut k: usize = 0;
        while k < latest.estimates.len()
            invariant
                k <= latest.estimates@.len(),
                est@ == latest.estimates@.subrange(0, k as int),
            decreases latest.estimates@.len() - k,
        {
            est.push(latest.estimates[k]);
            k = k + 1;
            assert(est@ =~= latest.estimates@.subrange(0, k as int));
        }
        assert(est@ =~= latest.estimates@);
        player.value_estimates = est;
    }
    game.episodes_run = latest.episode;
}

impl EpisodeEntry {
    /// The entry for a finished episode numbered `id`: the agent's score,
    /// estimates, tally, picks and learning rate, and the environment's steps.
    pub fn of_episode(id: u32, player: &Player, game: &Game) -> (e: EpisodeEntry)
        requires
            player.wf(),
        ensures
            e.episode == id,
            e.score == player.score,
            e.steps == game.steps as u32,
            e.estimates@ == player.value_estimates@,
            e.breakdown == player.score_count,
            e.learning_rate == player.alpha,
            e.action_selections@ == player.action_selections@,
            estimates_fit(e),
    {
        let mut est: Vec<i64> = Vec::new();
        let mut k: usize = 0;
        while k < player.value_estimates.len()
            invariant
                k <= player.value_estimates@.len(),
                est@ == player.value_estimates@.subrange(0, k as int),
            decreases player.value_estimates@.len() - k,
        {
            est.push(player.value_estimates[k]);
            k = k + 1;
            assert(est@ =~= player.value_estimates@.subrange(0, k as int));
        }
        assert(est@ =~= player.value_estimates@);
        let mut picks: Vec<u8> = Vec::new();
        let mut k: usize = 0;
        while k < player.action_selections.len()
            invariant
                k <= player.action_selections@.len(),
                picks@ == player.action_selections@.subrange(0, k as int),
            decreases player.action_selections@.len() - k,
        {
            picks.push(player.action_selections[k]);
            k = k + 1;
            assert(picks@ =~= player.action_selections@.subrange(0, k as int));
        }
        assert(picks@ =~= player.action_selections@);
        EpisodeEntry {
            episode: id,
            score: player.score,
            steps: game.steps as u32,
            estimates: est,
            breakdown: player.score_count,
            learning_rate: player.alpha,
            action_selections: picks,
        }
    }
}

proof fn lemma_whole_field_of_dec(n: nat, limit: nat)
    requires
        n <= limit,
    ensures
        whole_field(dec(n), limit) == Some(n),
{
    let t = dec(n);
    assert(t.subrange(0, t.len() as int) =~= t);
    crate::codec::lemma_nat_token_of_dec(t, 0, n, limit);
}

proof fn lemma_signed_field_of_dec(x: i32)
    ensures
        signed_field(dec_int(x as int)) == Some(x as int),
{
    let t = dec_int(x as int);
    if x < 0 {
        let m = (-x) as nat;
        let d = dec(m);
        assert(t == seq!['-'] + d);
        assert(t.subrange(1, 1 + d.len() as int) =~= d);
        crate::codec::lemma_nat_token_of_dec(t, 1, m, 0x8000_0000);
    } else {
        lemma_dec_round_trip(x as nat);
        assert(is_digit(t[0]));
        lemma_whole_field_of_dec(x as nat, 0x7fff_ffff);
    }
}

proof fn lemma_cells(e: EpisodeEntry)
    ensures
        cell(encoded_fields(e), 0) == dec(e.episode as nat),
        cell(encoded_fields(e), 1) == dec_int(e.score as int),
        cell(encoded_fields(e), 2) == dec(e.steps as nat),
        cell(encoded_fields(e), 3) == list_text(ItemKind::Fixed, ints_of(e.estimates@)),
        cell(encoded_fields(e), 4) == breakdown_text(e.breakdown),
        cell(encoded_fields(e), 5) == list_text(ItemKind::Byte, byte_ints(e.action_selections@)),
{
}

proof fn lemma_lists_round_trip(e: EpisodeEntry)
    requires
        estimates_fit(e),
        e.estimates@.len() == NUM_CHESTS,
    ensures
        decoded_estimates(list_text(ItemKind::Fixed, ints_of(e.estimates@))) == ints_of(e.estimates@),
        decoded_actions(list_text(ItemKind::Byte, byte_ints(e.action_selections@))) == byte_ints(e.action_selections@),
{
    let est = ints_of(e.estimates@);
    assert forall|k: int| 0 <= k < est.len() implies item_fits(ItemKind::Fixed, #[trigger] est[k]) by {
        assert(est[k] == e.estimates@[k] as int);
    }
    lemma_list_round_trip(ItemKind::Fixed, est);
    let picks = byte_ints(e.action_selections@);
    assert forall|k: int| 0 <= k < picks.len() implies item_fits(ItemKind::Byte, #[trigger] picks[k]) by {
        assert(picks[k] == e.action_selections@[k] as int);
    }
    lemma_list_round_trip(ItemKind::Byte, picks);
}

/// An entry written as a row and read back is the same entry: its numbers,
/// estimates, tally and picks come back unchanged.
pub proof fn lemma_entry_round_trip(e: EpisodeEntry)
    requires
        estimates_fit(e),
        e.estimates@.len() == NUM_CHESTS,
        e.learning_rate == RECORDED_LEARNING_RATE,
    ensures
        decodes_to(encoded_fields(e), e),
{
    lemma_whole_field_of_dec(e.episode as nat, u32::MAX as nat);
    lemma_signed_field_of_dec(e.score);
    lemma_whole_field_of_dec(e.steps as nat, u32::MAX as nat);
    lemma_lists_round_trip(e);
    lemma_breakdown_round_trip(e.breakdown);
    lemma_cells(e);
}

/// Each appended episode is numbered one past the last: a log whose last
/// line starts with an entry's number cell is continued with the next
/// number, and a log with no line starts at 1.
pub proof fn lemma_episode_ids_increase(e: EpisodeEntry, rest: Seq<char>)
    requires
        e.episode < u32::MAX,
    ensures
        next_id(Some(encoded_fields(e)[0] + seq![','] + rest)) == Some(e.episode + 1),
        next_id(None) == Some(1int),
{
    let d = dec(e.episode as nat);
    let s = d + seq![','] + rest;
    assert(encoded_fields(e)[0] == d);
    lemma_dec_round_trip(e.episode as nat);
    assert(s[0] == d[0]);
    assert(spaces_end(s, 0) == 0);
    assert(s.subrange(0, d.len() as int) =~= d);
    assert(s[d.len() as int] == ',');
    crate::codec::lemma_nat_token_of_dec(s, 0, e.episode as nat, u32::MAX as nat);
    assert(spaces_end(s, d.len() as int) == d.len());
}

impl EpisodeEntry {
    /// Reads one log line: the episode that its CSV record holds, each
    /// malformed or missing cell standing for its default; none for a line
    /// that holds no readable record, or that is the header row.
    pub fn from_line(line: &str) -> (r: Option<EpisodeEntry>)
        ensures
            (csv_fields_of(line@) is None || csv_fields_of(line@) == Some(header_cells())) ==> r is None,
            (csv_fields_of(line@) is Some && csv_fields_of(line@) != Some(header_cells())) ==> r is Some,
            r matches Some(e) ==> decodes_to(csv_fields_of(line@)->Some_0, e) && e.estimates@.len() == NUM_CHESTS,
    {
        match csv_fields(line) {
            None => None,
            Some(cells) => {
                if is_header(&cells) {
                    None
                } else {
                    Some(EpisodeEntry::decode(&cells))
                }
            },
        }
    }

    /// The log line that holds this entry: its six cells as one CSV record.
    pub fn to_line(&self) -> (r: Option<String>)
        requires
            estimates_fit(*self),
        ensures
            r matches Some(l) ==> csv_line_of(encoded_fields(*self)) == Some(l@),
            r is None ==> csv_line_of(encoded_fields(*self)) is None,
    {
        csv_line(&self.encode())
    }
}

} // verus!
