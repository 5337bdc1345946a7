//! The decisions that the request handlers make around their database and
//! file work: ownership lookups, payload checks, logo uploads, and the
//! lineup-card download.

use vstd::prelude::*;

use crate::auth::random_bytes;
use crate::error::{self, AppError};
use crate::layout::{self, PdfRequest};
use crate::models::{PlayerPayload, TeamPayload};
use crate::text::{self, after_last, contains_char, hex_encode, i64_to_string, replace_char, str_eq, trim};

verus! {

/// Largest accepted logo upload (5 MiB).
pub const MAX_LOGO_BYTES: usize = 5 * 1024 * 1024;

/// Most copies of one card that a download may ask for.
pub const MAX_COPIES: u32 = 20;

/// A record looked up for the requesting user: found, or 404 with `message`.
pub fn require_found<T>(row: Option<T>, message: &str) -> (r: Result<T, AppError>)
    ensures
        row is None <==> r is Err,
        row matches Some(t) ==> r == Ok::<T, AppError>(t),
        r matches Err(e) ==> error::is_error(e, 404, message@),
{
    match row {
        Some(t) => Ok(t),
        None => Err(AppError::not_found(message)),
    }
}

/// The path on disk of a stored logo URL (`/uploads/<file>`): the piece
/// after the URL's last `/`, under the uploads directory.
pub open spec fn logo_path_of(uploads_dir: Seq<char>, logo_url: Seq<char>) -> Seq<char> {
    uploads_dir + "/"@ + text::split_on(logo_url, '/').last()
}

/// The path on disk of a stored logo URL.
pub fn logo_fs_path(uploads_dir: &str, logo_url: &str) -> (p: String)
    ensures
        p@ == logo_path_of(uploads_dir@, logo_url@),
{
    let file = after_last(logo_url, '/');
    let mut p = String::from_str(uploads_dir);
    p.append("/");
    p.append(file.as_str());
    p
}

/// The URL under which an uploaded logo file is served.
pub fn logo_url(filename: &str) -> (u: String)
    ensures
        u@ == "/uploads/"@ + filename@,
{
    let mut u = String::from_str("/uploads/");
    u.append(filename);
    u
}

/// A logo stored under a file name without `/` is found again on disk: the
/// path computed from its URL is the path it was written to.
pub proof fn lemma_logo_path_round_trip(uploads_dir: Seq<char>, filename: Seq<char>)
    requires
        !filename.contains('/'),
    ensures
        logo_path_of(uploads_dir, "/uploads/"@ + filename) == uploads_dir + "/"@ + filename,
{
    reveal_strlit("/uploads/");
    reveal_strlit("/uploads");
    assert("/uploads/"@ =~= "/uploads"@.push('/'));
    text::lemma_split_last_after_sep("/uploads"@, '/', filename);
}

/// The name of a stored team: trimmed, and required.
pub fn team_name(payload: &TeamPayload) -> (r: Result<String, AppError>)
    ensures
        ({
            let name = text::trimmed(payload.name@);
            match r {
                Ok(n) => n@ == name && name.len() > 0,
                Err(e) => name.len() == 0 && error::is_error(e, 400, "team name is required"@),
            }
        }),
{
    let name = trim(payload.name.as_str());
    if name.is_empty() {
        return Err(AppError::bad_request("team name is required"));
    }
    Ok(String::from_str(name))
}

/// The stored fields of a player (number, name, default position), each
/// trimmed; the name is required.
pub fn player_fields(payload: &PlayerPayload) -> (r: Result<(String, String, String), AppError>)
    ensures
        ({
            let name = text::trimmed(payload.name@);
            match r {
                Ok((number, n, pos)) => {
                    &&& number@ == text::trimmed(payload.number@)
                    &&& n@ == name
                    &&& pos@ == text::trimmed(payload.default_position@)
                    &&& name.len() > 0
                },
                Err(e) => name.len() == 0 && error::is_error(e, 400, "player name is required"@),
            }
        }),
{
    let name = trim(payload.name.as_str());
    if name.is_empty() {
        return Err(AppError::bad_request("player name is required"));
    }
    Ok((
        String::from_str(trim(payload.number.as_str())),
        String::from_str(name),
        String::from_str(trim(payload.default_position.as_str())),
    ))
}

/// File extension of an uploaded logo, by its content type: PNG or JPEG.
pub fn logo_extension(content_type: &str) -> (r: Result<&'static str, AppError>)
    ensures
        content_type@ == "image/png"@ ==> (r matches Ok(ext) && ext@ == "png"@),
        (content_type@ == "image/jpeg"@ || content_type@ == "image/jpg"@) ==> (r matches Ok(ext)
            && ext@ == "jpg"@),
        !(content_type@ == "image/png"@ || content_type@ == "image/jpeg"@ || content_type@
            == "image/jpg"@) ==> (r matches Err(e) && error::is_error(
            e,
            400,
            "logo must be a PNG or JPEG image"@,
        )),
{
    proof {
        reveal_strlit("image/png");
        reveal_strlit("image/jpeg");
        reveal_strlit("image/jpg");
        assert("image/jpeg"@.len() != "image/png"@.len());
        assert("image/jpg"@[6] != "image/png"@[6]);
    }
    if str_eq(content_type, "image/png") {
        Ok("png")
    } else if str_eq(content_type, "image/jpeg") || str_eq(content_type, "image/jpg") {
        Ok("jpg")
    } else {
        Err(AppError::bad_request("logo must be a PNG or JPEG image"))
    }
}

/// A logo upload may be at most 5 MiB.
pub fn check_logo_size(len: usize) -> (r: Result<(), AppError>)
    ensures
        r is Ok <==> len <= MAX_LOGO_BYTES,
        r matches Err(e) ==> error::is_error(e, 400, "logo must be under 5 MB"@),
{
    if len > MAX_LOGO_BYTES {
        Err(AppError::bad_request("logo must be under 5 MB"))
    } else {
        Ok(())
    }
}

/// The file name of a team's logo: `team_<id>_<hex suffix>.<ext>`.
pub open spec fn logo_name(team_id: int, suffix: Seq<u8>, ext: Seq<char>) -> Seq<char> {
    "team_"@ + text::decimal(team_id) + "_"@ + text::hex(suffix) + "."@ + ext
}

/// A logo's file name starts with `team_<id>_` and ends with `.` and the
/// extension it was given, the suffix's two hex digits per byte between.
pub proof fn lemma_logo_name_shape(team_id: int, suffix: Seq<u8>, ext: Seq<char>)
    ensures
        ("team_"@ + text::decimal(team_id) + "_"@).is_prefix_of(logo_name(team_id, suffix, ext)),
        ("."@ + ext).is_suffix_of(logo_name(team_id, suffix, ext)),
        logo_name(team_id, suffix, ext).len() == 5 + text::decimal(team_id).len() + 1 + 2
            * suffix.len() + 1 + ext.len(),
{
    reveal_strlit("team_");
    reveal_strlit("_");
    reveal_strlit(".");
    text::lemma_hex_len(suffix);
    let head = "team_"@ + text::decimal(team_id) + "_"@;
    let n = logo_name(team_id, suffix, ext);
    assert(n =~= head + (text::hex(suffix) + "."@ + ext));
    assert(head =~= n.subrange(0, head.len() as int));
    assert(n =~= (head + text::hex(suffix)) + ("."@ + ext));
    assert(("."@ + ext) =~= n.subrange(n.len() - (1 + ext.len()), n.len() as int));
}

proof fn lemma_digits_no_slash(n: nat)
    ensures
        !text::digits(n).contains('/'),
    decreases n,
{
    if n >= 10 {
        lemma_digits_no_slash(n / 10);
        let d = text::digits(n);
        assert(d == text::digits(n / 10).push(text::digit_char((n % 10) as int)));
        assert(text::digit_char((n % 10) as int) as u32 == 48 + n % 10);
        if d.contains('/') {
            let k = choose|k: int| 0 <= k < d.len() && d[k] == '/';
            if k < d.len() - 1 {
                assert(text::digits(n / 10)[k] == '/');
            }
        }
    } else {
        assert(text::digit_char(n as int) as u32 == 48 + n);
        assert(text::digits(n) == seq![text::digit_char(n as int)]);
        if text::digits(n).contains('/') {
            let k = choose|k: int|
                0 <= k < text::digits(n).len() && text::digits(n)[k] == '/';
            assert(k == 0);
        }
    }
}

/// A fresh logo file name for a team, with 8 random bytes as its suffix.
/// It holds no `/` when the extension holds none.
pub fn new_logo_filename(team_id: i64, ext: &str) -> (f: String)
    ensures
        exists|b: Seq<u8>| b.len() == 8 && f@ == logo_name(team_id as int, b, ext@),
        !ext@.contains('/') ==> !f@.contains('/'),
        // `team_<id>_`, 16 hex digits, then `.` and the extension given
        ("team_"@ + text::decimal(team_id as int) + "_"@).is_prefix_of(f@),
        ("."@ + ext@).is_suffix_of(f@),
        f@.len() == 5 + text::decimal(team_id as int).len() + 1 + 16 + 1 + ext@.len(),
        forall|i: int|
            5 + text::decimal(team_id as int).len() + 1 <= i < 5 + text::decimal(
                team_id as int,
            ).len() + 1 + 16 ==> text::is_lower_hex(#[trigger] f@[i]),
{
    let suffix = random_bytes(8);
    let digits = i64_to_string(team_id);
    let hexed = hex_encode(suffix.as_slice());
    let mut f = String::from_str("team_");
    f.append(digits.as_str());
    f.append("_");
    f.append(hexed.as_str());
    f.append(".");
    f.append(ext);
    proof {
        assert(f@ == logo_name(team_id as int, suffix@, ext@));
        lemma_logo_name_shape(team_id as int, suffix@, ext@);
        let l2 = 5 + digits@.len() + 1;
        assert forall|i: int| l2 <= i < l2 + 16 implies text::is_lower_hex(#[trigger] f@[i]) by {
            reveal_strlit("team_");
            reveal_strlit("_");
            assert(f@[i] == hexed@[i - l2]);
        }
        if !ext@.contains('/') {
            reveal_strlit("team_");
            reveal_strlit("_");
            reveal_strlit(".");
            let n = team_id as int;
            if n < 0 {
                lemma_digits_no_slash((-n) as nat);
            } else {
                lemma_digits_no_slash(n as nat);
            }
            let parts = seq!["team_"@, digits@, "_"@, hexed@, "."@, ext@];
            if f@.contains('/') {
                let k = choose|k: int| 0 <= k < f@.len() && f@[k] == '/';
                let l0 = 5int;
                let l1 = l0 + digits@.len();
                let l2 = l1 + 1;
                let l3 = l2 + hexed@.len();
                let l4 = l3 + 1;
                if k < l0 {
                    assert(f@[k] == "team_"@[k]);
                } else if k < l1 {
                    assert(f@[k] == digits@[k - l0]);
                    if n < 0 {
                        if k - l0 > 0 {
                            assert(text::digits((-n) as nat)[k - l0 - 1] == '/');
                        }
                    } else {
                        assert(text::digits(n as nat)[k - l0] == '/');
                    }
                } else if k < l2 {
                    assert(f@[k] == '_');
                } else if k < l3 {
                    assert(f@[k] == hexed@[k - l2]);
                    assert(text::is_lower_hex(hexed@[k - l2]));
                } else if k < l4 {
                    assert(f@[k] == '.');
                } else {
                    assert(f@[k] == ext@[k - l4]);
                }
            }
        }
    }
    f
}

/// Download request: how many copies of each card, one by default.
#[derive(Clone, Copy, Debug, PartialEq, Eq, Structural)]
pub struct PdfQuery {
    pub coach: u32,
    pub scorekeeper: u32,
    pub self_copy: u32,
    pub umpire: u32,
}

/// Copies of a card that a download gets when it does not say.
pub fn one() -> (n: u32)
    ensures
        n == 1,
{
    1
}

/// A count capped at `MAX_COPIES`.
pub open spec fn capped(n: u32) -> u32 {
    if n < MAX_COPIES {
        n
    } else {
        MAX_COPIES
    }
}

fn cap(n: u32) -> (r: u32)
    ensures
        r == capped(n),
{
    if n < MAX_COPIES {
        n
    } else {
        MAX_COPIES
    }
}

/// The requested copies, at most 20 of each.
pub open spec fn capped_request(q: PdfQuery) -> PdfRequest {
    PdfRequest {
        coach: capped(q.coach),
        scorekeeper: capped(q.scorekeeper),
        self_copy: capped(q.self_copy),
        umpire: capped(q.umpire),
    }
}

/// The cards a download prints: the requested copies, at most 20 of each.
pub fn pdf_request(q: &PdfQuery) -> (r: PdfRequest)
    ensures
        r == capped_request(*q),
{
    PdfRequest {
        coach: cap(q.coach),
        scorekeeper: cap(q.scorekeeper),
        self_copy: cap(q.self_copy),
        umpire: cap(q.umpire),
    }
}

/// A download prints at most 80 cards: at most 20 for each of the four
/// recipients.
pub proof fn lemma_download_card_limit(q: PdfQuery)
    ensures
        layout::requested_count(capped_request(q)) <= 4 * MAX_COPIES,
{
}

/// Name of the downloaded file: `lineup-card.pdf` without an opponent, else
/// the opponent with spaces as underscores.
pub open spec fn pdf_file_name(opponent: Seq<char>) -> Seq<char> {
    "lineup-"@ + (if opponent.len() == 0 {
        "card"@
    } else {
        opponent.map_values(|c: char| if c == ' ' { '_' } else { c })
    }) + ".pdf"@
}

/// Name of the downloaded file for a lineup against `opponent`.
pub fn pdf_filename(opponent: &str) -> (f: String)
    ensures
        f@ == pdf_file_name(opponent@),
{
    let mut f = String::from_str("lineup-");
    if opponent.is_empty() {
        f.append("card");
    } else {
        let o = replace_char(opponent, ' ', '_');
        f.append(o.as_str());
    }
    f.append(".pdf");
    f
}

/// `Content-Disposition` value that shows a file inline under its name.
pub fn content_disposition(filename: &str) -> (v: String)
    ensures
        v@ == "inline; filename=\""@ + filename@ + "\""@,
{
    let mut v = String::from_str("inline; filename=\"");
    v.append(filename);
    v.append("\"");
    v
}

} // verus!
