use squircle::map::DifficultyName;

#[test]
fn ranks_have_their_usual_names() {
    let names = ["N/A", "Easy", "Medium", "Hard", "Expert", "Insane", "Illogical"];
    for (rank, name) in names.iter().enumerate() {
        let d = DifficultyName::from_u8(rank as u8).unwrap();
        assert_eq!(d.to_u8(), rank as u8);
        assert_eq!(d.get_value(), name.to_string());
        assert!(d.is_default());
    }
    assert!(DifficultyName::from_u8(7).is_none());
    assert!(DifficultyName::from_u8(255).is_none());
}

#[test]
fn an_unknown_rank_reads_as_unrated() {
    let d = DifficultyName::from_u8_or_default(9);
    assert_eq!(d.to_u8(), 0);
    assert_eq!(d.get_value(), "N/A");
    assert!(matches!(DifficultyName::default(), DifficultyName::Unrated(_)));
}

#[test]
fn renaming_keeps_the_rank() {
    let mut d = DifficultyName::from_u8(4).unwrap();
    d.set_value(String::from("Very Hard"));
    assert_eq!(d.to_u8(), 4);
    assert_eq!(d.get_value(), "Very Hard");
    assert!(!d.is_default());
    d.set_value(String::from("Expert"));
    assert!(d.is_default());
}
