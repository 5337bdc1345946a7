use lineup_cards::layout::{build_cards, pack, page_count, Card, PdfRequest, Variant, PAGE_H, PAGE_W};

/// Hundredths of a millimetre as millimetres.
fn mm(v: u64) -> f64 {
    v as f64 / 100.0
}

#[test]
fn packs_all_requested_cards() {
    let cards: Vec<Card> = (0..7)
        .map(|i| Card {
            variant: if i < 3 { Variant::Large } else { Variant::Umpire },
            recipient: "X".into(),
        })
        .collect();
    let placements = pack(&cards);
    assert_eq!(placements.len(), cards.len());
    for p in &placements {
        let (w, h) = cards[p.card_index].variant.size();
        let (x, y, w, h) = (mm(p.x), mm(p.y), mm(w), mm(h));
        assert!(x >= 0.0 && x + w <= mm(PAGE_W) + 0.1);
        assert!(y >= 0.0 && y + h <= mm(PAGE_H) + 0.1);
    }
}

#[test]
fn build_cards_orders_recipients() {
    let req = PdfRequest { coach: 1, scorekeeper: 1, self_copy: 1, umpire: 2 };
    let cards = build_cards(&req);
    let labels: Vec<&str> = cards.iter().map(|c| c.recipient.as_str()).collect();
    assert_eq!(labels, vec!["HOME COACH", "SCOREKEEPER", "MANAGER COPY", "UMPIRE", "UMPIRE"]);
    assert_eq!(cards[4].variant, Variant::Umpire);
    assert_eq!(cards[0].variant, Variant::Large);
    let placements = pack(&cards);
    assert_eq!(page_count(&placements), 3);
}

#[test]
fn two_large_cards_share_a_shelf() {
    let cards = build_cards(&PdfRequest { coach: 2, scorekeeper: 0, self_copy: 0, umpire: 0 });
    let p = pack(&cards);
    assert_eq!((p[0].page, p[0].x), (0, 635));
    assert_eq!((p[1].page, p[1].x), (0, 635 + 9525 + 500));
    assert_eq!(p[0].y, p[1].y);
    assert_eq!(p[0].y, PAGE_H - 635 - 13970);
}

#[test]
fn umpire_cards_stack_on_a_page() {
    let cards = build_cards(&PdfRequest { coach: 0, scorekeeper: 0, self_copy: 0, umpire: 4 });
    let p = pack(&cards);
    assert_eq!(p.iter().map(|q| q.page).collect::<Vec<_>>(), vec![0, 0, 0, 0]);
    assert_eq!(p[2].x, 635);
    assert_eq!(p[2].y + 12700 + 500, p[0].y);
    assert_eq!(page_count(&p), 1);
}

#[test]
fn packed_cards_never_overlap() {
    let req = PdfRequest { coach: 3, scorekeeper: 2, self_copy: 4, umpire: 7 };
    let cards = build_cards(&req);
    let p = pack(&cards);
    assert_eq!(p.len(), 16);
    for i in 0..p.len() {
        assert_eq!(p[i].card_index, i);
        for j in i + 1..p.len() {
            assert!(p[i].page <= p[j].page);
            if p[i].page == p[j].page {
                let (wi, hi) = cards[i].variant.size();
                let (wj, hj) = cards[j].variant.size();
                assert!(p[i].x + wi <= p[j].x || p[j].x + wj <= p[i].x || p[i].y + hi <= p[j].y || p[j].y + hj <= p[i].y);
            }
        }
    }
    assert_eq!(page_count(&p), p[15].page + 1);
}

#[test]
fn empty_sheet_has_one_page() {
    let cards = build_cards(&PdfRequest { coach: 0, scorekeeper: 0, self_copy: 0, umpire: 0 });
    assert!(cards.is_empty());
    assert_eq!(page_count(&pack(&cards)), 1);
    assert_eq!(PAGE_W, 21590);
}
