use hemeroteca::dice::is_dice_similar;

fn chars(s: &str) -> Vec<char> {
    s.chars().collect()
}

#[test]
fn dice_threshold_agrees_with_strsim() {
    let words = [
        "Presidente", "President", "Presidencial", "Presidential", "Elección", "Elecciones",
        "Election", "Elections", "Clima", "Climate", "Climático", "Technology", "Tecnológico",
        "Policía", "Police", "Politics", "Economy", " Economy", "Crisis", "crisis", "a", "ab", "",
        "é", "ée", "Ley", "Law", "War", "Guerra", "Cybersecurity", "Ciberseguridad", "aaaa", "aa",
        "Futbol", "Fútbol", "Hospital", "hospitales", "Energía", "Energy", "Caos", "Chaos",
    ];
    for a in words.iter() {
        for b in words.iter() {
            let expected = strsim::sorensen_dice(a, b) >= 0.75;
            assert_eq!(is_dice_similar(&chars(a), &chars(b)), expected, "{} / {}", a, b);
        }
    }
}

#[test]
fn dice_exact_values() {
    assert!(is_dice_similar(&chars("Presidente"), &chars("Presidenta")));
    assert!(!is_dice_similar(&chars("Clima"), &chars("Climático")));
    assert!(is_dice_similar(&chars("Pres idente"), &chars("Presidente")));
    assert!(is_dice_similar(&chars(""), &chars("  ")));
    assert!(!is_dice_similar(&chars("a"), &chars("b")));
}
