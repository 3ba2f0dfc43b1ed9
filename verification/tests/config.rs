use kate_bot::config::{emotes, insults, Env};

#[test]
fn environments_by_name() {
    assert_eq!(Env::from_name("dev"), Some(Env::Dev));
    assert_eq!(Env::from_name("prod"), Some(Env::Prod));
    assert_eq!(Env::from_name("Prod"), None);
    assert_eq!(Env::from_name(""), None);
    assert_eq!(Env::Dev.name(), "dev");
    assert_eq!(Env::Prod.name(), "prod");
}

#[test]
fn emotes_depend_on_the_environment() {
    assert_eq!(emotes(Env::Dev).wow, "<:wow:1376760017486741544>");
    assert_eq!(emotes(Env::Prod).wow, "<:wow:1377207933930049608>");
    assert_eq!(emotes(Env::Prod).goofyahh, "<a:goofyahh:1398031608661016780>>");
}

#[test]
fn insults_are_built_from_the_emotes() {
    let e = emotes(Env::Dev);
    let all = insults(&e);
    assert_eq!(all.len(), 28);
    assert_eq!(all[0], format!("{} noob", e.wat));
    assert_eq!(all[16], e.wat);
    assert_eq!(all[27], format!("{}{}{}", e.goofyahh, e.goofyahh, e.goofyahh));
}
