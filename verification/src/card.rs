//! What a lineup card says: header lines, the batting rows, the players left
//! on the bench, and text shortened to the room it is drawn in.

use vstd::prelude::*;

use crate::models::{Lineup, LineupSpot, Player, Team};
use crate::text::{self, i64_to_string, join, push_char, str_eq, to_uppercase};

verus! {

/// Text kept whole when its characters fit in the room, else shortened to a
/// prefix followed by `…`. `fit` is the number of characters that fit, or
/// `None` when not even an empty text fits. The prefix is as long as leaves
/// room for the ellipsis, and never shorter than one character (a space
/// stands in for an empty text).
pub open spec fn truncated(s: Seq<char>, fit: Option<usize>) -> Seq<char> {
    if fit matches Some(m) && s.len() <= m {
        s
    } else {
        let room: int = match fit {
            Some(m) => if m >= 1 {
                m - 1
            } else {
                0
            },
            None => 0,
        };
        let k = if room < s.len() {
            room
        } else {
            s.len() as int
        };
        let head = if k == 0 {
            if s.len() > 0 {
                s.take(1)
            } else {
                seq![' ']
            }
        } else {
            s.take(k)
        };
        head.push('\u{2026}')
    }
}

/// Shorten text to the number of characters that fit.
pub fn truncate_chars(s: &str, fit: Option<usize>) -> (r: String)
    ensures
        r@ == truncated(s@, fit),
{
    let n = s.unicode_len();
    if let Some(m) = fit {
        if n <= m {
            return String::from_str(s);
        }
    }
    // characters kept before the ellipsis: as many as leave room for it
    let keep: usize = match fit {
        Some(m) => if m >= 1 {
            if m - 1 < n {
                m - 1
            } else {
                n
            }
        } else {
            0
        },
        None => 0,
    };
    let mut out = String::new();
    let mut k: usize = 0;
    while k < keep
        invariant
            n == s@.len(),
            keep <= n,
            0 <= k <= keep,
            out@ == s@.take(k as int),
        decreases keep - k,
    {
        push_char(&mut out, s.get_char(k));
        proof {
            assert(s@.take(k + 1) =~= s@.take(k as int).push(s@[k as int]));
        }
        k = k + 1;
    }
    if k == 0 {
        if n > 0 {
            push_char(&mut out, s.get_char(0));
            proof {
                assert(out@ =~= s@.take(1));
            }
        } else {
            push_char(&mut out, ' ');
        }
    }
    push_char(&mut out, '\u{2026}');
    out
}

/// With room for at least two characters, shortened text fits in the room;
/// text that fits is kept as it is.
pub proof fn lemma_truncated_fits(s: Seq<char>, m: usize)
    requires
        m >= 2,
    ensures
        truncated(s, Some(m)).len() <= m,
        s.len() <= m ==> truncated(s, Some(m)) == s,
{
}

/// Some spot of the lineup names the player.
pub open spec fn is_assigned(spots: Seq<LineupSpot>, id: i64) -> bool {
    exists|j: int| 0 <= j < spots.len() && spots[j].player_id == Some(id)
}

fn assigned_ids(spots: &[LineupSpot]) -> (ids: Vec<i64>)
    ensures
        forall|id: i64| ids@.contains(id) <==> is_assigned(spots@, id),
{
    let mut ids: Vec<i64> = Vec::new();
    let mut i: usize = 0;
    while i < spots.len()
        invariant
            0 <= i <= spots@.len(),
            forall|id: i64|
                ids@.contains(id) <==> exists|j: int|
                    0 <= j < i && #[trigger] spots@[j].player_id == Some(id),
        decreases spots@.len() - i,
    {
        if let Some(id) = spots[i].player_id {
            let ghost before = ids@;
            ids.push(id);
            proof {
                assert forall|x: i64|
                    ids@.contains(x) <==> exists|j: int|
                        0 <= j < i + 1 && #[trigger] spots@[j].player_id == Some(x) by {
                    if ids@.contains(x) {
                        let k = choose|k: int| 0 <= k < ids@.len() && ids@[k] == x;
                        if k < before.len() {
                            assert(before.contains(x));
                        } else {
                            assert(spots@[i as int].player_id == Some(x));
                        }
                    }
                    if exists|j: int| 0 <= j < i + 1 && #[trigger] spots@[j].player_id == Some(x) {
                        let j = choose|j: int|
                            0 <= j < i + 1 && #[trigger] spots@[j].player_id == Some(x);
                        if j < i {
                            assert(before.contains(x));
                            let k = choose|k: int| 0 <= k < before.len() && before[k] == x;
                            assert(ids@[k] == x);
                        } else {
                            assert(ids@[before.len() as int] == x);
                        }
                    }
                }
            }
        }
        i = i + 1;
    }
    ids
}

fn contains_id(ids: &Vec<i64>, id: i64) -> (b: bool)
    ensures
        b == ids@.contains(id),
{
    let mut i: usize = 0;
    while i < ids.len()
        invariant
            0 <= i <= ids@.len(),
            forall|k: int| 0 <= k < i ==> ids@[k] != id,
        decreases ids@.len() - i,
    {
        if ids[i] == id {
            return true;
        }
        i = i + 1;
    }
    false
}

/// The players no spot of the lineup names (the bench), as indices into
/// `players`, in roster order.
pub fn available_players(spots: &[LineupSpot], players: &[Player]) -> (r: Vec<usize>)
    ensures
        forall|k: int| 0 <= k < r@.len() ==> #[trigger] r@[k] < players@.len(),
        forall|k: int, l: int| 0 <= k < l < r@.len() ==> #[trigger] r@[k] < #[trigger] r@[l],
        forall|i: int|
            0 <= i < players@.len() ==> (r@.contains(i as usize) <==> !is_assigned(
                spots@,
                #[trigger] players@[i].id,
            )),
{
    let ids = assigned_ids(spots);
    let mut r: Vec<usize> = Vec::new();
    let mut i: usize = 0;
    while i < players.len()
        invariant
            0 <= i <= players@.len(),
            forall|id: i64| ids@.contains(id) <==> is_assigned(spots@, id),
            forall|k: int| 0 <= k < r@.len() ==> #[trigger] r@[k] < i,
            forall|k: int, l: int| 0 <= k < l < r@.len() ==> #[trigger] r@[k] < #[trigger] r@[l],
            forall|p: int|
                0 <= p < i ==> (r@.contains(p as usize) <==> !is_assigned(
                    spots@,
                    #[trigger] players@[p].id,
                )),
        decreases players@.len() - i,
    {
        let ghost before = r@;
        if !contains_id(&ids, players[i].id) {
            r.push(i);
        }
        proof {
            assert forall|p: int|
                0 <= p < i + 1 implies (r@.contains(p as usize) <==> !is_assigned(
                spots@,
                #[trigger] players@[p].id,
            )) by {
                if p < i {
                    if r@.contains(p as usize) {
                        let k = choose|k: int| 0 <= k < r@.len() && r@[k] == p as usize;
                        if k < before.len() {
                            assert(before.contains(p as usize));
                        }
                    }
                    if before.contains(p as usize) {
                        let k = choose|k: int| 0 <= k < before.len() && before[k] == p as usize;
                        assert(r@[k] == p as usize);
                    }
                } else {
                    if r@.len() > before.len() {
                        assert(r@[before.len() as int] == i);
                    } else {
                        if r@.contains(i) {
                            let k = choose|k: int| 0 <= k < r@.len() && r@[k] == i;
                            assert(before[k] < i);
                        }
                    }
                }
            }
        }
        i = i + 1;
    }
    r
}

/// Rows of the bench list, which fills a left column first: the players in
/// the left column and the number of rows (at least three).
pub fn bench_rows(n: usize) -> (r: (usize, usize))
    ensures
        r.0 == (n + 1) / 2,
        r.1 == if r.0 < 3 { 3 } else { r.0 },
{
    let left = n / 2 + n % 2;
    let rows = if left < 3 { 3 } else { left };
    (left, rows)
}

/// The bench players shown in row `r` of a bench list of `n` players: the
/// left column holds the first `(n + 1) / 2` players, the right column the
/// rest, both from the top row down.
pub open spec fn bench_slot(n: int, r: int) -> (Option<int>, Option<int>) {
    let left = (n + 1) / 2;
    (
        if r < left && r < n {
            Some(r)
        } else {
            None
        },
        if left + r < n {
            Some(left + r)
        } else {
            None
        },
    )
}

/// Rows of a bench list of `n` players: enough for the left column, and
/// at least three.
pub open spec fn bench_row_count(n: int) -> int {
    let left = (n + 1) / 2;
    if left < 3 {
        3
    } else {
        left
    }
}

/// An optional index as an integer.
pub open spec fn opt_int(o: Option<usize>) -> Option<int> {
    match o {
        Some(k) => Some(k as int),
        None => None,
    }
}

/// For each row of the bench list, the bench player (an index into the
/// bench) shown in the left and in the right column.
pub fn bench_layout(n: usize) -> (rows: Vec<(Option<usize>, Option<usize>)>)
    ensures
        rows@.len() == bench_row_count(n as int),
        forall|r: int|
            0 <= r < rows@.len() ==> (opt_int((#[trigger] rows@[r]).0), opt_int(rows@[r].1))
                == bench_slot(n as int, r),
{
    let (left, count) = bench_rows(n);
    let mut rows: Vec<(Option<usize>, Option<usize>)> = Vec::new();
    let mut r: usize = 0;
    while r < count
        invariant
            left == (n + 1) / 2,
            count == bench_row_count(n as int),
            0 <= r <= count,
            rows@.len() == r,
            forall|q: int|
                0 <= q < r ==> (opt_int((#[trigger] rows@[q]).0), opt_int(rows@[q].1))
                    == bench_slot(n as int, q),
        decreases count - r,
    {
        let l = if r < left && r < n {
            Some(r)
        } else {
            None
        };
        let right = if r < n - left {
            Some(left + r)
        } else {
            None
        };
        rows.push((l, right));
        r = r + 1;
    }
    rows
}

/// Where bench player `k` of `n` is shown: its row, and whether in the right
/// column.
pub open spec fn bench_position(n: int, k: int) -> (int, bool) {
    let left = (n + 1) / 2;
    if k < left {
        (k, false)
    } else {
        (k - left, true)
    }
}

/// Every bench player is shown exactly once, in one row and one column: each
/// has a place among the rows, only bench players are shown, and no player
/// is shown twice.
pub proof fn lemma_bench_each_player_once(n: nat)
    ensures
        forall|k: int|
            0 <= k < n ==> {
                let (r, right) = #[trigger] bench_position(n as int, k);
                &&& 0 <= r < bench_row_count(n as int)
                &&& if right {
                    bench_slot(n as int, r).1 == Some(k)
                } else {
                    bench_slot(n as int, r).0 == Some(k)
                }
            },
        forall|r: int|
            0 <= r ==> {
                &&& (#[trigger] bench_slot(n as int, r)).0 matches Some(k) ==> 0 <= k < n
                &&& bench_slot(n as int, r).1 matches Some(k) ==> 0 <= k < n
            },
        forall|r1: int, r2: int|
            #![trigger bench_slot(n as int, r1), bench_slot(n as int, r2)]
            0 <= r1 && 0 <= r2 ==> {
                &&& bench_slot(n as int, r1).0 is Some && bench_slot(n as int, r1).0 == bench_slot(
                    n as int,
                    r2,
                ).0 ==> r1 == r2
                &&& bench_slot(n as int, r1).1 is Some && bench_slot(n as int, r1).1 == bench_slot(
                    n as int,
                    r2,
                ).1 ==> r1 == r2
                &&& !(bench_slot(n as int, r1).0 is Some && bench_slot(n as int, r1).0
                    == bench_slot(n as int, r2).1)
            },
{
}

/// A defence-only spot.
pub fn is_defense(spot: &LineupSpot) -> (b: bool)
    ensures
        b == (spot.slot_kind@ == "DEF"@),
{
    str_eq(spot.slot_kind.as_str(), "DEF")
}

/// The label in a batting row's order column: `EH` for the extra hitter,
/// else the batting order.
pub fn order_label(spot: &LineupSpot) -> (l: String)
    ensures
        l@ == if spot.slot_kind@ == "EH"@ {
            "EH"@
        } else {
            text::decimal(spot.batting_order as int)
        },
{
    if str_eq(spot.slot_kind.as_str(), "EH") {
        String::from_str("EH")
    } else {
        i64_to_string(spot.batting_order)
    }
}

/// The roster entry a player id refers to: the last player with that id.
pub open spec fn player_for(players: Seq<Player>, id: Option<i64>) -> Option<int> {
    match id {
        None => None,
        Some(x) => if exists|k: int| 0 <= k < players.len() && players[k].id == x {
            Some(
                choose|k: int|
                    0 <= k < players.len() && players[k].id == x && forall|j: int|
                        k < j < players.len() ==> players[j].id != x,
            )
        } else {
            None
        },
    }
}

/// The roster entry a spot's player id refers to.
pub fn find_player(players: &[Player], id: Option<i64>) -> (r: Option<usize>)
    ensures
        id is None ==> r is None,
        id matches Some(x) ==> match r {
            Some(k) => k < players@.len() && players@[k as int].id == x && forall|j: int|
                k < j < players@.len() ==> players@[j].id != x,
            None => forall|j: int| 0 <= j < players@.len() ==> players@[j].id != x,
        },
{
    let x = match id {
        Some(x) => x,
        None => {
            return None;
        },
    };
    let mut i: usize = players.len();
    while i > 0
        invariant
            id == Some(x),
            0 <= i <= players@.len(),
            forall|j: int| i <= j < players@.len() ==> players@[j].id != x,
        decreases i,
    {
        if players[i - 1].id == x {
            return Some(i - 1);
        }
        i = i - 1;
    }
    None
}

/// Number and name of the player in a spot, or two empty texts.
pub fn spot_player(spot: &LineupSpot, players: &[Player]) -> (r: (String, String))
    ensures
        match player_for(players@, spot.player_id) {
            Some(k) => r.0@ == players@[k].number@ && r.1@ == players@[k].name@,
            None => r.0@.len() == 0 && r.1@.len() == 0,
        },
{
    match find_player(players, spot.player_id) {
        Some(k) => {
            proof {
                lemma_find_player_spec(players@, spot.player_id, k as int);
            }
            (players[k].number.clone(), players[k].name.clone())
        },
        None => {
            proof {
                lemma_find_player_spec_none(players@, spot.player_id);
            }
            (String::new(), String::new())
        },
    }
}

proof fn lemma_find_player_spec(players: Seq<Player>, id: Option<i64>, k: int)
    requires
        id matches Some(x) && 0 <= k < players.len() && players[k].id == x && forall|j: int|
            k < j < players.len() ==> players[j].id != x,
    ensures
        player_for(players, id) == Some(k),
{
    let x = id->0;
    assert(exists|k: int| 0 <= k < players.len() && players[k].id == x);
    let c = choose|c: int|
        0 <= c < players.len() && players[c].id == x && forall|j: int|
            c < j < players.len() ==> players[j].id != x;
    if c < k {
        assert(players[k].id != x);
    }
    if k < c {
        assert(players[c].id != x);
    }
}

proof fn lemma_find_player_spec_none(players: Seq<Player>, id: Option<i64>)
    requires
        id is None || (id matches Some(x) && forall|j: int|
            0 <= j < players.len() ==> players[j].id != x),
    ensures
        player_for(players, id) is None,
{
}

/// The team's initial, upper-cased, drawn when the team has no logo.
pub fn team_initial(name: &str) -> (r: String)
    ensures
        r@ == if name@.len() == 0 {
            Seq::<char>::empty()
        } else {
            text::uppercase(name@.take(1))
        },
{
    if name.unicode_len() == 0 {
        return String::new();
    }
    let first = name.substring_char(0, 1);
    to_uppercase(first)
}

/// `prefix` followed by `value`, when `value` is not empty.
pub open spec fn labelled(prefix: Seq<char>, value: Seq<char>) -> Option<Seq<char>> {
    if value.len() == 0 {
        None
    } else {
        Some(prefix + value)
    }
}

fn label_line(prefix: &str, value: &str) -> (r: Option<String>)
    ensures
        match r {
            Some(s) => labelled(prefix@, value@) == Some(s@),
            None => labelled(prefix@, value@) is None,
        },
{
    if value.is_empty() {
        None
    } else {
        let mut s = String::from_str(prefix);
        s.append(value);
        Some(s)
    }
}

/// The opponent line of the header: `vs <opponent>`.
pub fn opponent_line(lineup: &Lineup) -> (r: Option<String>)
    ensures
        match r {
            Some(s) => labelled("vs "@, lineup.opponent@) == Some(s@),
            None => labelled("vs "@, lineup.opponent@) is None,
        },
{
    label_line("vs ", lineup.opponent.as_str())
}

/// The head coach line of the footer.
pub fn head_coach_line(team: &Team) -> (r: Option<String>)
    ensures
        match r {
            Some(s) => labelled("Head Coach: "@, team.head_coach@) == Some(s@),
            None => labelled("Head Coach: "@, team.head_coach@) is None,
        },
{
    label_line("Head Coach: ", team.head_coach.as_str())
}

/// The assistant coaches line of the footer.
pub fn assistants_line(team: &Team) -> (r: Option<String>)
    ensures
        match r {
            Some(s) => labelled("Assistants: "@, team.assistant_coaches@) == Some(s@),
            None => labelled("Assistants: "@, team.assistant_coaches@) is None,
        },
{
    label_line("Assistants: ", team.assistant_coaches.as_str())
}

/// The game details under the opponent line: date, home or away (upper
/// case) and location, each when given, in that order.
pub open spec fn meta_bits(lineup: Lineup) -> Seq<Seq<char>> {
    let a = if lineup.game_date@.len() > 0 {
        seq![lineup.game_date@]
    } else {
        Seq::empty()
    };
    let b = if lineup.home_away@.len() > 0 {
        seq![text::uppercase(lineup.home_away@)]
    } else {
        Seq::empty()
    };
    let c = if lineup.location@.len() > 0 {
        seq![lineup.location@]
    } else {
        Seq::empty()
    };
    a + b + c
}

/// The game details line shows each detail exactly when it is given, in the
/// order date, home or away, location.
pub proof fn lemma_meta_details(lineup: Lineup)
    ensures
        ({
            let r = text::joined(meta_bits(lineup), "  \u{2022}  "@);
            let sep = "  \u{2022}  "@;
            &&& lineup.game_date@.len() > 0 ==> lineup.game_date@.is_prefix_of(r)
            &&& lineup.location@.len() > 0 ==> lineup.location@.is_suffix_of(r)
            &&& lineup.home_away@.len() > 0 && lineup.game_date@.len() == 0 ==> text::uppercase(
                lineup.home_away@,
            ).is_prefix_of(r)
            &&& lineup.home_away@.len() > 0 && lineup.location@.len() == 0 ==> text::uppercase(
                lineup.home_away@,
            ).is_suffix_of(r)
            &&& lineup.game_date@.len() == 0 && lineup.home_away@.len() == 0
                && lineup.location@.len() == 0 ==> r.len() == 0
            &&& lineup.game_date@.len() > 0 && lineup.home_away@.len() == 0
                && lineup.location@.len() > 0 ==> r == lineup.game_date@ + sep + lineup.location@
            &&& lineup.game_date@.len() > 0 && lineup.home_away@.len() > 0
                && lineup.location@.len() > 0 ==> r == lineup.game_date@ + sep + text::uppercase(
                lineup.home_away@,
            ) + sep + lineup.location@
            &&& lineup.game_date@.len() == 0 && lineup.home_away@.len() > 0
                && lineup.location@.len() > 0 ==> r == text::uppercase(lineup.home_away@) + sep
                + lineup.location@
            &&& lineup.game_date@.len() > 0 && lineup.home_away@.len() > 0
                && lineup.location@.len() == 0 ==> r == lineup.game_date@ + sep + text::uppercase(
                lineup.home_away@,
            )
            &&& lineup.game_date@.len() > 0 && lineup.home_away@.len() == 0
                && lineup.location@.len() == 0 ==> r == lineup.game_date@
            &&& lineup.game_date@.len() == 0 && lineup.home_away@.len() > 0
                && lineup.location@.len() == 0 ==> r == text::uppercase(lineup.home_away@)
            &&& lineup.game_date@.len() == 0 && lineup.home_away@.len() == 0
                && lineup.location@.len() > 0 ==> r == lineup.location@
        }),
{
    let bits = meta_bits(lineup);
    let sep = "  \u{2022}  "@;
    if bits.len() > 0 {
        text::lemma_joined_ends(bits, sep);
    }
    let (d, h, l) = (lineup.game_date@, text::uppercase(lineup.home_away@), lineup.location@);
    if d.len() > 0 {
        assert(bits[0] == d);
    } else if lineup.home_away@.len() > 0 {
        assert(bits[0] == h);
    }
    if l.len() > 0 {
        assert(bits.last() == l);
    } else if lineup.home_away@.len() > 0 {
        assert(bits.last() == h);
    }
    if d.len() > 0 && lineup.home_away@.len() == 0 && l.len() > 0 {
        assert(bits =~= seq![d, l]);
        assert(bits.drop_last() =~= seq![d]);
        assert(text::joined(seq![d], sep) == d);
        assert(text::joined(bits, sep) == text::joined(bits.drop_last(), sep) + sep + l);
    }
    if d.len() > 0 && lineup.home_away@.len() > 0 && l.len() > 0 {
        assert(bits =~= seq![d, h, l]);
        assert(bits.drop_last() =~= seq![d, h]);
        assert(seq![d, h].drop_last() =~= seq![d]);
        assert(text::joined(seq![d], sep) == d);
        assert(text::joined(seq![d, h], sep) == d + sep + h);
        assert(text::joined(bits, sep) == text::joined(bits.drop_last(), sep) + sep + l);
    }
    if d.len() == 0 && lineup.home_away@.len() > 0 && l.len() > 0 {
        assert(bits =~= seq![h, l]);
        assert(bits.drop_last() =~= seq![h]);
        assert(text::joined(seq![h], sep) == h);
        assert(text::joined(bits, sep) == text::joined(bits.drop_last(), sep) + sep + l);
    }
    if d.len() > 0 && lineup.home_away@.len() > 0 && l.len() == 0 {
        assert(bits =~= seq![d, h]);
        assert(bits.drop_last() =~= seq![d]);
        assert(text::joined(seq![d], sep) == d);
        assert(text::joined(bits, sep) == text::joined(bits.drop_last(), sep) + sep + h);
    }
    if d.len() > 0 && lineup.home_away@.len() == 0 && l.len() == 0 {
        assert(bits =~= seq![d]);
    }
    if d.len() == 0 && lineup.home_away@.len() > 0 && l.len() == 0 {
        assert(bits =~= seq![h]);
    }
    if d.len() == 0 && lineup.home_away@.len() == 0 && l.len() > 0 {
        assert(bits =~= seq![l]);
    }
    if d.len() == 0 && lineup.home_away@.len() == 0 && l.len() == 0 {
        assert(bits =~= Seq::<Seq<char>>::empty());
    }
}

/// The game details line, the details joined by a spaced bullet; empty when
/// no detail is given.
pub fn header_meta(lineup: &Lineup) -> (r: String)
    ensures
        r@ == text::joined(meta_bits(*lineup), "  \u{2022}  "@),
        // each detail shows exactly when given, in the order date, home or
        // away, location
        lineup.game_date@.len() > 0 ==> lineup.game_date@.is_prefix_of(r@),
        lineup.location@.len() > 0 ==> lineup.location@.is_suffix_of(r@),
        lineup.home_away@.len() > 0 && lineup.game_date@.len() == 0 ==> text::uppercase(
            lineup.home_away@,
        ).is_prefix_of(r@),
        lineup.home_away@.len() > 0 && lineup.location@.len() == 0 ==> text::uppercase(
            lineup.home_away@,
        ).is_suffix_of(r@),
        lineup.game_date@.len() == 0 && lineup.home_away@.len() == 0 && lineup.location@.len() == 0
            ==> r@.len() == 0,
        lineup.game_date@.len() > 0 && lineup.home_away@.len() == 0 && lineup.location@.len() > 0
            ==> r@ == lineup.game_date@ + "  \u{2022}  "@ + lineup.location@,
        lineup.game_date@.len() > 0 && lineup.home_away@.len() > 0 && lineup.location@.len() > 0
            ==> r@ == lineup.game_date@ + "  \u{2022}  "@ + text::uppercase(lineup.home_away@)
            + "  \u{2022}  "@ + lineup.location@,
        lineup.game_date@.len() == 0 && lineup.home_away@.len() > 0 && lineup.location@.len() > 0
            ==> r@ == text::uppercase(lineup.home_away@) + "  \u{2022}  "@ + lineup.location@,
        lineup.game_date@.len() > 0 && lineup.home_away@.len() > 0 && lineup.location@.len() == 0
            ==> r@ == lineup.game_date@ + "  \u{2022}  "@ + text::uppercase(lineup.home_away@),
        lineup.game_date@.len() > 0 && lineup.home_away@.len() == 0 && lineup.location@.len() == 0
            ==> r@ == lineup.game_date@,
        lineup.game_date@.len() == 0 && lineup.home_away@.len() > 0 && lineup.location@.len() == 0
            ==> r@ == text::uppercase(lineup.home_away@),
        lineup.game_date@.len() == 0 && lineup.home_away@.len() == 0 && lineup.location@.len() > 0
            ==> r@ == lineup.location@,
{
    let mut bits: Vec<String> = Vec::new();
    if !lineup.game_date.as_str().is_empty() {
        bits.push(lineup.game_date.clone());
    }
    if !lineup.home_away.as_str().is_empty() {
        bits.push(to_uppercase(lineup.home_away.as_str()));
    }
    if !lineup.location.as_str().is_empty() {
        bits.push(lineup.location.clone());
    }
    proof {
        assert(text::views(bits@) =~= meta_bits(*lineup));
        lemma_meta_details(*lineup);
    }
    join(&bits, "  \u{2022}  ")
}

} // verus!
