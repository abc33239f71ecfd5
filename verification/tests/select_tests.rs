use fortuner::engine::respond;
use fortuner::fortune::Fortune;
use fortuner::pattern::SearchPattern;
use fortuner::select::{chosen_text, pick_fortune, text_or_default};

fn fortunes() -> Vec<Fortune> {
    vec![
        Fortune {
            source: "fortunes".to_string(),
            text: "You cannot achieve the impossible without \
                  attempting the absurd."
                .to_string(),
        },
        Fortune {
            source: "fortunes".to_string(),
            text: "Assumption is the mother of all screw-ups.".to_string(),
        },
        Fortune {
            source: "fortunes".to_string(),
            text: "Neckties strangle clear thinking.".to_string(),
        },
    ]
}

#[test]
fn test_pick_fortune() {
    // Create a slice of fortunes
    let fortunes = fortunes();

    // Pick a fortune with a seed
    assert_eq!(
        pick_fortune(&fortunes, Some(1)).unwrap(),
        "Neckties strangle clear thinking.".to_string()
    );
}

#[test]
fn the_same_seed_picks_the_same_record() {
    let fortunes = fortunes();
    for seed in [0u64, 1, 2, 42, u64::MAX] {
        let first = pick_fortune(&fortunes, Some(seed)).unwrap();
        for _ in 0..5 {
            assert_eq!(pick_fortune(&fortunes, Some(seed)).unwrap(), first);
        }
        assert!(fortunes.iter().any(|fortune| fortune.text == first));
    }
}

#[test]
fn seeds_reach_more_than_one_record() {
    let fortunes = fortunes();
    let first = pick_fortune(&fortunes, Some(0)).unwrap();
    assert!((1u64..64).any(|seed| pick_fortune(&fortunes, Some(seed)).unwrap() != first));
}

#[test]
fn an_empty_corpus_yields_nothing() {
    let empty: Vec<Fortune> = Vec::new();
    assert_eq!(pick_fortune(&empty, Some(1)), None);
    assert_eq!(pick_fortune(&empty, Some(77)), None);
    assert_eq!(pick_fortune(&empty, None), None);
    assert_eq!(text_or_default(None), "No fortunes found");
    assert_eq!(text_or_default(Some("kept".to_string())), "kept");
}

#[test]
fn an_unseeded_pick_is_a_record_of_the_corpus() {
    let fortunes = fortunes();
    for _ in 0..20 {
        let picked = pick_fortune(&fortunes, None).unwrap();
        assert!(fortunes.iter().any(|fortune| fortune.text == picked));
    }
}

#[test]
fn chosen_text_hands_out_the_text() {
    let fortunes = fortunes();
    assert_eq!(chosen_text(Some(&fortunes[1])).unwrap(), "Assumption is the mother of all screw-ups.");
    assert_eq!(chosen_text(None), None);
}

#[test]
fn respond_selects_without_a_pattern() {
    let fortunes = fortunes();
    let out = respond(&fortunes, None, Some(1));
    assert_eq!(out.len(), 1);
    assert!(!out[0].diagnostic);
    assert_eq!(out[0].text, "Neckties strangle clear thinking.");

    let out = respond(&Vec::new(), None, Some(1));
    assert_eq!(out.len(), 1);
    assert!(!out[0].diagnostic);
    assert_eq!(out[0].text, "No fortunes found");
}

#[test]
fn respond_searches_with_a_pattern() {
    let fortunes = fortunes();
    let pattern = SearchPattern::new("THE", true).unwrap();
    let out = respond(&fortunes, Some(&pattern), Some(1));
    let shown: Vec<(bool, &str)> = out.iter().map(|e| (e.diagnostic, e.text.as_str())).collect();
    assert_eq!(
        shown,
        vec![
            (true, "(fortunes)\n%"),
            (false, "You cannot achieve the impossible without attempting the absurd.\n%"),
            (false, "Assumption is the mother of all screw-ups.\n%"),
        ]
    );
    let nothing = SearchPattern::new("zebra", false).unwrap();
    assert!(respond(&fortunes, Some(&nothing), None).is_empty());
}

#[test]
fn a_seeded_pick_depends_on_the_order_of_the_corpus_only() {
    let corpus: Vec<Fortune> = [
        "Neckties strangle clear thinking.",
        "You cannot achieve the impossible without attempting the absurd.",
        "Assumption is the mother of all screw-ups.",
    ]
    .iter()
    .map(|text| Fortune { source: "fortunes".to_string(), text: text.to_string() })
    .collect();
    let first = pick_fortune(&corpus, Some(1)).unwrap();
    for _ in 0..10 {
        assert_eq!(pick_fortune(&corpus, Some(1)).unwrap(), first);
    }
    // The same seed draws the same place in any corpus of three.
    let place = corpus.iter().position(|fortune| fortune.text == first).unwrap();
    assert_eq!(pick_fortune(&fortunes(), Some(1)).unwrap(), fortunes()[place].text);
    assert_eq!(place, 2);
}
