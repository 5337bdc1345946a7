use lineup_cards::handlers::{
    check_logo_size, content_disposition, logo_extension, logo_fs_path, logo_url,
    new_logo_filename, one, pdf_filename, pdf_request, player_fields, require_found, team_name,
    PdfQuery, MAX_LOGO_BYTES,
};
use lineup_cards::models::{PlayerPayload, TeamPayload};

#[test]
fn logo_fs_path_takes_last_segment() {
    assert_eq!(logo_fs_path("uploads", "/uploads/team_1_ab.png"), "uploads/team_1_ab.png");
    assert_eq!(logo_fs_path("/data/uploads", "x.png"), "/data/uploads/x.png");
    assert_eq!(logo_fs_path("u", "/a/"), "u/");
}

#[test]
fn uploaded_logo_is_found_again() {
    let filename = new_logo_filename(12, "png");
    assert!(filename.starts_with("team_12_"));
    assert!(filename.ends_with(".png"));
    assert_eq!(filename.len(), "team_12_".len() + 16 + ".png".len());
    let url = logo_url(&filename);
    assert_eq!(url, format!("/uploads/{filename}"));
    assert_eq!(logo_fs_path("/data/uploads", &url), format!("/data/uploads/{filename}"));
    assert!(new_logo_filename(-3, "jpg").starts_with("team_-3_"));
}

#[test]
fn team_name_is_trimmed_and_required() {
    let p = TeamPayload { name: "  Cats ".into(), head_coach: String::new(), assistant_coaches: String::new() };
    assert_eq!(team_name(&p).unwrap(), "Cats");
    let p = TeamPayload { name: " \n".into(), head_coach: String::new(), assistant_coaches: String::new() };
    let err = team_name(&p).unwrap_err();
    assert_eq!((err.status, err.message.as_str()), (400, "team name is required"));
}

#[test]
fn player_fields_are_trimmed() {
    let p = PlayerPayload { number: " 7 ".into(), name: " Rodriguez".into(), default_position: "SS ".into() };
    let (n, name, pos) = player_fields(&p).unwrap();
    assert_eq!((n.as_str(), name.as_str(), pos.as_str()), ("7", "Rodriguez", "SS"));
    let p = PlayerPayload { number: "1".into(), name: "  ".into(), default_position: String::new() };
    let err = player_fields(&p).unwrap_err();
    assert_eq!((err.status, err.message.as_str()), (400, "player name is required"));
}

#[test]
fn logo_extension_by_content_type() {
    assert_eq!(logo_extension("image/png").unwrap(), "png");
    assert_eq!(logo_extension("image/jpeg").unwrap(), "jpg");
    assert_eq!(logo_extension("image/jpg").unwrap(), "jpg");
    let err = logo_extension("image/gif").unwrap_err();
    assert_eq!((err.status, err.message.as_str()), (400, "logo must be a PNG or JPEG image"));
    assert!(logo_extension("").is_err());
}

#[test]
fn logo_size_limit() {
    assert_eq!(MAX_LOGO_BYTES, 5 * 1024 * 1024);
    assert!(check_logo_size(MAX_LOGO_BYTES).is_ok());
    let err = check_logo_size(MAX_LOGO_BYTES + 1).unwrap_err();
    assert_eq!((err.status, err.message.as_str()), (400, "logo must be under 5 MB"));
}

#[test]
fn pdf_request_caps_copies() {
    let q = PdfQuery { coach: 25, scorekeeper: 0, self_copy: one(), umpire: 20 };
    let r = pdf_request(&q);
    assert_eq!((r.coach, r.scorekeeper, r.self_copy, r.umpire), (20, 0, 1, 20));
}

#[test]
fn pdf_file_names() {
    assert_eq!(pdf_filename("Red Sox"), "lineup-Red_Sox.pdf");
    assert_eq!(pdf_filename(""), "lineup-card.pdf");
    assert_eq!(content_disposition("lineup-card.pdf"), "inline; filename=\"lineup-card.pdf\"");
}

#[test]
fn require_found_is_404() {
    assert_eq!(require_found(Some(5), "team not found").unwrap(), 5);
    let err = require_found::<i64>(None, "team not found").unwrap_err();
    assert_eq!((err.status, err.message.as_str()), (404, "team not found"));
}

#[test]
fn download_prints_at_most_80_cards() {
    let q = PdfQuery { coach: u32::MAX, scorekeeper: 1000, self_copy: 21, umpire: 20 };
    let cards = lineup_cards::layout::build_cards(&pdf_request(&q));
    assert_eq!(cards.len(), 80);
}
