use my_sonic_client::frame::Mode;
use my_sonic_client::frame::send::Count;
use my_sonic_client::frame::send::Push;
use my_sonic_client::frame::send::Query;
use my_sonic_client::frame::send::Send;
use my_sonic_client::frame::send::Suggest;

#[test]
fn frame_send_to_string() {
    assert_eq!(
        "START ingest passwd\r\n".to_string(),
        Send::Start(Mode::Ingest, "passwd".to_string()).to_string()
    );

    assert_eq!("QUIT\r\n".to_string(), (Send::Quit).to_string());

    assert_eq!(
        "QUERY messages user:0dcde3a6 \"valerian saliou\"\r\n".to_string(),
        Send::Query(Query::new(
            "messages".into(),
            "user:0dcde3a6".into(),
            "valerian saliou".into()
        ))
        .to_string()
    );

    assert_eq!(
        "PUSH messages user:0dcde3a6 conversation:71f3d63b \"Hello Valerian Saliou, how are you today?\"\r\n".to_string(),
        Send::Push(Push::new(
            "messages".into(),
            "user:0dcde3a6".into(),
            "conversation:71f3d63b".into(),
            "Hello Valerian Saliou, how are you today?".into()
        ))
        .to_string()
    );

    assert_eq!(
        "COUNT messages user:0dcde3a6 conversation:71f3d63b\r\n".to_string(),
        Send::Count(
            Count::new("messages".into())
                .bucket("user:0dcde3a6".into())
                .object("conversation:71f3d63b".into())
        )
        .to_string()
    );

    assert_eq!("PING\r\n".to_string(), Send::Ping.to_string());

    assert_eq!(
        "SUGGEST messages user:0dcde3a6 \"val\"\r\n".to_string(),
        Send::Suggest(Suggest::new(
            "messages".into(),
            "user:0dcde3a6".into(),
            "val".into()
        ))
        .to_string()
    )
}

#[test]
fn query_encodes_exactly() {
    let query = Query::new(
        "messages".to_string(),
        "user:0dcde3a6".to_string(),
        "valerian saliou".to_string(),
    );
    assert_eq!(
        "QUERY messages user:0dcde3a6 \"valerian saliou\"\r\n",
        Send::Query(query).to_string()
    );
}

#[test]
fn push_encodes_exactly() {
    let push = Push::new(
        "messages".to_string(),
        "user:0dcde3a6".to_string(),
        "conversation:71f3d63c".to_string(),
        "Hello, how are you today?".to_string(),
    );
    assert_eq!(
        "PUSH messages user:0dcde3a6 conversation:71f3d63c \"Hello, how are you today?\"\r\n",
        Send::Push(push).to_string()
    );
}

#[test]
fn query_optional_fields_in_order() {
    let query = Query::new("col".to_string(), "bkt".to_string(), "terms".to_string())
        .limit(10)
        .offset(20);
    assert_eq!("QUERY col bkt \"terms\" 10 20\r\n", Send::Query(query).to_string());

    let limited = Query::new("col".to_string(), "bkt".to_string(), "terms".to_string()).limit(0);
    assert_eq!("QUERY col bkt \"terms\" 0\r\n", Send::Query(limited).to_string());
}

#[test]
fn query_offset_needs_limit() {
    // The trailing integers are positional: without a limit the offset is
    // dropped at construction time, so it can never reach the wire in the
    // limit's position.
    let query = Query::new("col".to_string(), "bkt".to_string(), "terms".to_string()).offset(20);
    assert_eq!("QUERY col bkt \"terms\"\r\n", Send::Query(query).to_string());
}

#[test]
fn push_with_lang() {
    let mut push = Push::new(
        "messages".to_string(),
        "user:0dcde3a6".to_string(),
        "conversation:71f3d63c".to_string(),
        "bonjour".to_string(),
    );
    push.lang("fra".to_string());
    assert_eq!(
        "PUSH messages user:0dcde3a6 conversation:71f3d63c \"bonjour\" fra\r\n",
        Send::Push(push).to_string()
    );
}

#[test]
fn suggest_with_limit() {
    let mut suggest = Suggest::new(
        "messages".to_string(),
        "user:0dcde3a6".to_string(),
        "val".to_string(),
    );
    suggest.limit(5);
    assert_eq!(
        "SUGGEST messages user:0dcde3a6 \"val\" 5\r\n",
        Send::Suggest(suggest).to_string()
    );
}

#[test]
fn count_object_needs_bucket() {
    // Without a bucket the object is dropped at construction time, so it
    // can never reach the wire on its own.
    let count = Count::new("messages".to_string()).object("conversation:71f3d63b".to_string());
    assert_eq!("COUNT messages\r\n", Send::Count(count).to_string());

    let narrowed = Count::new("messages".to_string()).bucket("user:0dcde3a6".to_string());
    assert_eq!("COUNT messages user:0dcde3a6\r\n", Send::Count(narrowed).to_string());
}

#[test]
fn start_uses_mode_tokens() {
    assert_eq!(
        "START search SecretPassword\r\n",
        Send::Start(Mode::Search, "SecretPassword".to_string()).to_string()
    );
    assert_eq!("search", Mode::Search.to_string());
    assert_eq!("ingest", Mode::Ingest.to_string());
}

#[test]
fn numbers_encode_in_decimal() {
    let query = Query::new("c".to_string(), "b".to_string(), "t".to_string())
        .limit(18446744073709551615)
        .offset(0);
    assert_eq!(
        "QUERY c b \"t\" 18446744073709551615 0\r\n",
        Send::Query(query).to_string()
    );
}
