use xmlreader::ElementEnd;
use xmlreader::Error;
use xmlreader::Lexeme;
use xmlreader::StreamReader;
use xmlreader::SubTreeReader;
use xmlreader::TextPos;
use xmlreader::Token;

type Item<'a> = Lexeme<'a>;

fn start(local: &str, at: usize) -> Item<'_> {
    Ok(Token::ElementStart { prefix: "", local, start: at })
}

fn open(at: usize) -> Item<'static> {
    Ok(Token::ElementEnd { end: ElementEnd::Open, start: at })
}

fn empty(at: usize) -> Item<'static> {
    Ok(Token::ElementEnd { end: ElementEnd::Empty, start: at })
}

fn close(local: &str, at: usize) -> Item<'_> {
    Ok(Token::ElementEnd { end: ElementEnd::Close("", local), start: at })
}

fn text(text: &str, at: usize) -> Item<'_> {
    Ok(Token::Text { text, start: at })
}

#[test]
fn given_tokens_are_read_like_the_tokens_of_a_text() {
    let xml = "<r a='1'><p>t</p><!--c--><q/></r>";
    let mut live = StreamReader::from(xml);
    let mut tokens = Vec::new();
    while let Some(token) = live.next().unwrap() {
        tokens.push(Ok(token));
    }
    let mut one = StreamReader::from(xml);
    let mut two = StreamReader::from_tokens(xml, tokens);
    assert_eq!(one.next_tag(), two.next_tag());
    assert_eq!(one.attribute("a"), two.attribute("a"));
    assert_eq!(one.next_tag(), two.next_tag());
    assert_eq!(one.element_text(), two.element_text());
    assert_eq!(one.text(), two.text());
    assert_eq!(one.next_tag(), two.next_tag());
    assert_eq!(one.skip_element(), two.skip_element());
    assert_eq!(one.depth(), two.depth());
    assert_eq!(one.current(), two.current());
    assert_eq!(one.next(), two.next());
    assert_eq!(one.next(), Ok(None));
    assert_eq!(two.next(), Ok(None));
    assert_eq!(two.next(), Ok(None));
}

#[test]
fn a_closing_tag_at_depth_zero_is_unexpected() {
    let mut sr = StreamReader::from_tokens("<a/></a>", vec![start("a", 0), empty(2), close("a", 4)]);
    assert!(sr.next().unwrap().is_some());
    let end = sr.next().unwrap();
    assert_eq!(sr.next(), Err(Error::Unexpected(Some(TextPos { row: 1, col: 5 }))));
    assert_eq!(sr.current(), end);
    assert_eq!(sr.depth(), 0);
    assert_eq!(sr.next(), Ok(None));
    assert_eq!(sr.current(), None);
}

#[test]
fn a_closing_tag_at_depth_zero_ends_every_scan() {
    let mut sr = StreamReader::from_tokens("", vec![start("a", 0), close("a", 0), empty(0)]);
    sr.next().unwrap();
    assert_eq!(sr.skip_element(), Err(Error::Unexpected(Some(TextPos { row: 1, col: 1 }))));
    let mut sr = StreamReader::from_tokens("", vec![start("a", 0), close("a", 0), empty(0)]);
    sr.next().unwrap();
    assert_eq!(sr.attribute_count(), Err(Error::Unexpected(Some(TextPos { row: 1, col: 1 }))));
    let mut sr = StreamReader::from_tokens("", vec![start("a", 0), close("a", 0), empty(0)]);
    sr.next().unwrap();
    assert_eq!(sr.element_text(), Err(Error::Unexpected(Some(TextPos { row: 1, col: 1 }))));
    let mut sr = StreamReader::from_tokens("", vec![close("a", 0), start("a", 0)]);
    assert_eq!(sr.next_tag(), Err(Error::Unexpected(Some(TextPos { row: 1, col: 1 }))));
    assert_eq!(sr.next_tag(), Ok(Some(Token::ElementStart { prefix: "", local: "a", start: 0 })));
}

#[test]
fn a_token_inside_a_character_has_no_place() {
    let mut sr = StreamReader::from_tokens("\u{e9}\u{e9}", vec![text("x", 1), text("y", 2), text("z", 9)]);
    sr.next().unwrap();
    assert_eq!(sr.local_name(), Err(Error::Unexpected(None)));
    sr.next().unwrap();
    assert_eq!(sr.local_name(), Err(Error::Unexpected(Some(TextPos { row: 1, col: 2 }))));
    sr.next().unwrap();
    assert_eq!(sr.local_name(), Err(Error::Unexpected(Some(TextPos { row: 1, col: 3 }))));
}

#[test]
fn tokenizer_errors_among_given_tokens_are_handed_on() {
    let error = xmlparser::Tokenizer::from("<1/>").next().unwrap().unwrap_err();
    let mut sr = StreamReader::from_tokens("", vec![start("a", 0), Err(error), open(0)]);
    sr.next().unwrap();
    assert_eq!(sr.next(), Err(Error::ParserError(error)));
    assert_eq!(sr.local_name(), Ok("a"));
    assert_eq!(sr.next(), Ok(Some(Token::ElementEnd { end: ElementEnd::Open, start: 0 })));
    assert_eq!(sr.depth(), 1);
}

#[test]
fn attributes_that_no_tag_end_follows_are_gathered_once() {
    let attribute = Token::Attribute { prefix: "", local: "x", value: "1", start: 0 };
    let mut sr = StreamReader::from_tokens("", vec![start("a", 0), Ok(attribute), text("t", 0)]);
    sr.next().unwrap();
    assert_eq!(sr.attribute_count(), Ok(1));
    assert_eq!(sr.current(), Some(Token::Text { text: "t", start: 0 }));
    assert_eq!(sr.attribute_count(), Err(Error::Unexpected(Some(TextPos { row: 1, col: 1 }))));
}

#[test]
fn attributes_at_the_end_of_input_stay_gathered() {
    let attribute = Token::Attribute { prefix: "", local: "x", value: "1", start: 0 };
    let mut sr = StreamReader::from_tokens("", vec![start("a", 0), Ok(attribute)]);
    let name = sr.next().unwrap();
    assert_eq!(sr.attribute_count(), Ok(1));
    assert_eq!(sr.current(), name);
    assert_eq!(sr.attribute_count(), Ok(1));
    assert_eq!(sr.attribute("x"), Ok(Some("1")));
    assert_eq!(sr.is_empty_element(), Ok(false));
}

#[test]
fn skip_element_counts_depth_not_names() {
    let tokens = vec![
        start("a", 0),
        open(0),
        start("b", 0),
        open(0),
        close("a", 0),
        text("t", 0),
        close("b", 0),
        text("u", 0),
    ];
    let mut sr = StreamReader::from_tokens("", tokens);
    sr.next().unwrap();
    assert_eq!(sr.skip_element(), Ok(()));
    assert_eq!(sr.local_name(), Ok("b"));
    assert_eq!(sr.depth(), 0);
    assert_eq!(sr.next(), Ok(Some(Token::Text { text: "u", start: 0 })));
}

#[test]
fn element_text_of_given_tokens() {
    let comment = Ok(Token::Comment { text: "c", start: 0 });
    let instruction = Ok(Token::ProcessingInstruction { start: 0 });
    let cdata = Ok(Token::Cdata { text: "d", start: 0 });
    let mut sr = StreamReader::from_tokens(
        "",
        vec![start("a", 0), open(0), comment, cdata, instruction, close("a", 0)],
    );
    sr.next().unwrap();
    assert_eq!(sr.element_text(), Ok(Some("d")));
    let mut sr = StreamReader::from_tokens("", vec![start("a", 0), open(0), text("t", 0), empty(0)]);
    sr.next().unwrap();
    assert_eq!(sr.element_text(), Ok(Some("t")));
    let declaration = Ok(Token::Declaration { start: 0 });
    let mut sr = StreamReader::from_tokens("", vec![start("a", 0), open(0), declaration]);
    sr.next().unwrap();
    assert_eq!(sr.element_text(), Err(Error::Unexpected(Some(TextPos { row: 1, col: 1 }))));
}

#[test]
fn subtree_over_given_tokens() {
    let tokens = vec![start("p", 0), open(0), start("q", 0), empty(0), close("p", 0), start("s", 0)];
    let mut sr = StreamReader::from_tokens("", tokens);
    sr.next().unwrap();
    {
        let mut sub = SubTreeReader::new(&mut sr).unwrap();
        assert_eq!(sub.next_tag(), Ok(Some(Token::ElementStart { prefix: "", local: "q", start: 0 })));
        assert_eq!(sub.next_tag(), Ok(None));
        assert!(sub.eos);
    }
    assert_eq!(sr.local_name(), Ok("p"));
    assert_eq!(sr.next(), Ok(Some(Token::ElementStart { prefix: "", local: "s", start: 0 })));
}

#[test]
fn subtree_opened_on_a_tag_end_takes_the_depth_before_it() {
    let mut sr = StreamReader::from_tokens("", vec![start("a", 0), open(0), close("a", 0), open(0)]);
    sr.next().unwrap();
    sr.next().unwrap();
    sr.next().unwrap();
    assert_eq!(sr.depth(), 0);
    assert_eq!(sr.next(), Ok(Some(Token::ElementEnd { end: ElementEnd::Open, start: 0 })));
    assert_eq!(sr.depth(), 1);
    assert_eq!(sr.start_depth(), Some(0));
    assert!(SubTreeReader::new(&mut sr).is_ok());
}

#[test]
fn element_text_over_given_tokens_with_attributes() {
    let attribute = Token::Attribute { prefix: "", local: "id", value: "1", start: 3 };
    let tokens = vec![start("a", 0), Ok(attribute), open(9), text("x", 10), close("a", 11)];
    let mut sr = StreamReader::from_tokens("<a id='1'>x</a>", tokens);
    assert!(sr.next().unwrap().is_some());
    assert_eq!(sr.element_text(), Ok(Some("x")));
    assert_eq!(sr.local_name(), Ok("a"));
    assert_eq!(sr.depth(), 0);
}
