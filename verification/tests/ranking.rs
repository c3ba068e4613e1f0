use napm::rank::{highlight_split, rank, score_of, Score};
use napm::record::Pkg;

fn pkg(name: &str, desc: &str) -> Pkg {
    Pkg {
        name: name.to_string(),
        version: "1.0".to_string(),
        db_name: "core".to_string(),
        desc: desc.to_string(),
    }
}

#[test]
fn score_components_are_exact() {
    // "vim" occurs once in a 3-character name and not in the description.
    let s = score_of("vim", "text editor", "vim");
    assert!(s == Score { name_hits: 1, name_len: 3, desc_hits: 0, desc_len: 11 });
    // One hit in a 6-character name, one in an 8-character description.
    let s = score_of("neovim", "vim fork", "vim");
    assert!(s == Score { name_hits: 1, name_len: 6, desc_hits: 1, desc_len: 8 });
}

#[test]
fn occurrences_do_not_overlap() {
    let s = score_of("aaa", "", "aa");
    assert_eq!(s.name_hits, 1);
}

#[test]
fn empty_fields_get_unit_denominators() {
    let s = score_of("", "", "x");
    assert!(s == Score { name_hits: 0, name_len: 1, desc_hits: 0, desc_len: 1 });
}

#[test]
fn scoring_is_case_insensitive() {
    // Counting goes through real lowercasing; an identity fold would
    // find no hit here.
    let s = score_of("Vim", "A Modal Editor", "VIM");
    assert_eq!(s.name_hits, 1);
    let s = score_of("vim", "vim vIM VIm", "Vim");
    assert_eq!(s.desc_hits, 3);
}

#[test]
fn ranking_orders_by_density() {
    // 2 * (1/3) for vim beats 2 * (1/6) + 1/8 for neovim.
    let candidates = vec![pkg("neovim", "vim fork"), pkg("vim", "text editor")];
    let r = rank(&candidates, "vim", None);
    assert_eq!(r.len(), 2);
    assert_eq!(r[0].pkg.name, "vim");
    assert_eq!(r[1].pkg.name, "neovim");
}

#[test]
fn ranking_limit_keeps_only_the_top() {
    let candidates = vec![pkg("neovim", "vim fork"), pkg("vim", "text editor")];
    let r = rank(&candidates, "vim", Some(1));
    assert_eq!(r.len(), 1);
    assert_eq!(r[0].pkg.name, "vim");
}

#[test]
fn ranking_ties_keep_input_order() {
    let candidates = vec![pkg("gvim", "an editor"), pkg("kvim", "an editor")];
    let r = rank(&candidates, "vim", None);
    assert_eq!(r[0].pkg.name, "gvim");
    assert_eq!(r[1].pkg.name, "kvim");
}

#[test]
fn ranking_is_deterministic() {
    let candidates = vec![pkg("neovim", "vim fork"), pkg("vim", "text editor"), pkg("ed", "")];
    let first: Vec<String> = rank(&candidates, "vim", None).iter().map(|r| r.pkg.name.clone()).collect();
    let second: Vec<String> = rank(&candidates, "vim", None).iter().map(|r| r.pkg.name.clone()).collect();
    assert_eq!(first, second);
}

#[test]
fn empty_term_scores_zero_and_keeps_order() {
    let candidates = vec![pkg("zsh", "a shell"), pkg("bash", "the shell"), pkg("fish", "")];
    let r = rank(&candidates, "", None);
    assert_eq!(r.len(), 3);
    assert_eq!(r[0].pkg.name, "zsh");
    assert_eq!(r[1].pkg.name, "bash");
    assert_eq!(r[2].pkg.name, "fish");
    for entry in &r {
        assert_eq!(entry.score.name_hits, 0);
        assert_eq!(entry.score.desc_hits, 0);
    }
}

#[test]
fn highlight_wraps_the_first_occurrence() {
    let parts = highlight_split("NeoVim is great", "vim").unwrap();
    assert_eq!(parts.0, "Neo");
    assert_eq!(parts.1, "Vim");
    assert_eq!(parts.2, " is great");
}

#[test]
fn highlight_misses_cleanly() {
    assert!(highlight_split("emacs", "vim").is_none());
}

#[test]
fn highlight_with_empty_term_marks_nothing() {
    let parts = highlight_split("emacs", "").unwrap();
    assert_eq!(parts.0, "");
    assert_eq!(parts.1, "");
    assert_eq!(parts.2, "emacs");
}
