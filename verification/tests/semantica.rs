use yggdrasil::comunicacao::semantica::{tokens, ContextDoc};

#[test]
fn tokens_split_fold_and_drop_stopwords() {
    assert_eq!(
        tokens("A linguagem da floresta, ñe'ẽ!"),
        vec!["linguagem".to_string(), "floresta".to_string(), "ne".to_string()]
    );
}

#[test]
fn tokens_of_empty_and_punctuation() {
    assert!(tokens("").is_empty());
    assert!(tokens(" ,;: ").is_empty());
    assert_eq!(tokens("Água água"), vec!["agua".to_string(), "agua".to_string()]);
    assert_eq!(tokens("the of x yy"), vec!["yy".to_string()]);
}

#[test]
fn context_doc_new() {
    let d = ContextDoc::new("n1", "som");
    assert_eq!(d.id, "n1");
    assert_eq!(d.text, "som");
}
