use tgdoc::anchor_index::AnchorIndex;

#[test]
fn resolves_to_other_document() {
    let mut idx = AnchorIndex::new();
    idx.register("SendMessage", "api/available-methods", "sendMessage");
    assert_eq!(
        idx.resolve("/bots/api#sendmessage", "api/getting-updates"),
        Some("[[api/available-methods#sendMessage]]".to_string())
    );
}

#[test]
fn resolves_within_same_document() {
    let mut idx = AnchorIndex::new();
    idx.register("message", "api/available-types", "Message");
    assert_eq!(idx.resolve("#Message", "api/available-types"), Some("[[#Message]]".to_string()));
}

#[test]
fn unknown_or_missing_anchor() {
    let mut idx = AnchorIndex::new();
    idx.register("message", "api/available-types", "Message");
    assert_eq!(idx.resolve("#chat", "x"), None);
    assert_eq!(idx.resolve("/bots/api", "x"), None);
    assert_eq!(idx.resolve("/bots/api#", "x"), None);
}

#[test]
fn later_registration_wins() {
    let mut idx = AnchorIndex::new();
    idx.register("user", "a", "User");
    idx.register("USER", "b", "User2");
    assert_eq!(idx.resolve("#user", "z"), Some("[[b#User2]]".to_string()));
}

#[test]
fn last_hash_starts_the_anchor() {
    let mut idx = AnchorIndex::new();
    idx.register("chat", "api/types", "Chat");
    assert_eq!(idx.resolve("/a#b#chat", "z"), Some("[[api/types#Chat]]".to_string()));
}

#[test]
fn registering_leaves_other_anchors_alone() {
    let mut idx = AnchorIndex::new();
    idx.register("chat", "api/types", "Chat");
    idx.register("SendMessage", "api/methods", "sendMessage");
    assert_eq!(idx.resolve("x#SENDMESSAGE", "api/methods"), Some("[[#sendMessage]]".to_string()));
    assert_eq!(idx.resolve("#chat", "api/methods"), Some("[[api/types#Chat]]".to_string()));
    assert_eq!(idx.resolve("#user", "api/methods"), None);
}

#[test]
fn empty_fragment_resolves_to_nothing_even_with_an_empty_anchor() {
    let mut idx = AnchorIndex::new();
    idx.register("", "api/types", "Nothing");
    assert_eq!(idx.resolve("/bots/api#", "x"), None);
    assert_eq!(idx.resolve("#", "api/types"), None);
}
