use xmlreader::ElementEnd;
use xmlreader::Error;
use xmlreader::StreamReader;
use xmlreader::Token;

fn expected(raw: xmlparser::Token<'_>) -> Token<'_> {
    let start = raw.span().start();
    match raw {
        xmlparser::Token::Declaration { .. } => Token::Declaration { start },
        xmlparser::Token::ProcessingInstruction { .. } => Token::ProcessingInstruction { start },
        xmlparser::Token::Comment { text, .. } => Token::Comment { text: text.as_str(), start },
        xmlparser::Token::DtdStart { .. } => Token::DtdStart { start },
        xmlparser::Token::EmptyDtd { .. } => Token::EmptyDtd { start },
        xmlparser::Token::EntityDeclaration { .. } => Token::EntityDeclaration { start },
        xmlparser::Token::DtdEnd { .. } => Token::DtdEnd { start },
        xmlparser::Token::ElementStart { prefix, local, .. } => {
            Token::ElementStart { prefix: prefix.as_str(), local: local.as_str(), start }
        }
        xmlparser::Token::Attribute { prefix, local, value, .. } => Token::Attribute {
            prefix: prefix.as_str(),
            local: local.as_str(),
            value: value.as_str(),
            start,
        },
        xmlparser::Token::ElementEnd { end, .. } => Token::ElementEnd {
            end: match end {
                xmlparser::ElementEnd::Open => ElementEnd::Open,
                xmlparser::ElementEnd::Close(prefix, local) => {
                    ElementEnd::Close(prefix.as_str(), local.as_str())
                }
                xmlparser::ElementEnd::Empty => ElementEnd::Empty,
            },
            start,
        },
        xmlparser::Token::Text { text } => Token::Text { text: text.as_str(), start },
        xmlparser::Token::Cdata { text, .. } => Token::Cdata { text: text.as_str(), start },
    }
}

fn reads_what_the_tokenizer_yields(text: &str) {
    let mut sr = StreamReader::from(text);
    for item in xmlparser::Tokenizer::from(text) {
        match item {
            Ok(raw) => assert_eq!(sr.next(), Ok(Some(expected(raw)))),
            Err(e) => assert_eq!(sr.next(), Err(Error::ParserError(e))),
        }
    }
    assert_eq!(sr.next(), Ok(None));
    assert_eq!(sr.next(), Ok(None));
}

#[test]
fn reader_hands_out_the_tokens_of_the_tokenizer() {
    let texts = [
        "",
        "   ",
        "<a/>",
        "<a></a>",
        "\u{feff}<a/>",
        "<?xml version='1.0' encoding='UTF-8' standalone='yes'?>\n<r/>\n",
        "<!DOCTYPE greeting SYSTEM \"hello.dtd\"><greeting/>",
        "<!DOCTYPE svg PUBLIC \"-//W3C//DTD SVG 1.1//EN\" \"svg11.dtd\" [\n<!ENTITY ns_extend \"http://test.com\">\n<!-- c -->\n<?pi?>\n]>\n<svg/>",
        "<p:a xmlns:p='u' p:x=\"1\" y='&amp;'><p:b>t&lt;</p:b><![CDATA[<c>]]><!--x--><?t d?></p:a>",
        "<a>\n  <b>\u{e9}\u{4e2d}\u{1f600}</b>\n  <c k='\u{e9}'/>\n</a>\n<!-- end -->",
        "<a><b><c><d/></c></b></a>",
    ];
    for text in texts {
        reads_what_the_tokenizer_yields(text);
    }
}

#[test]
fn reader_hands_on_the_errors_of_the_tokenizer() {
    let texts = [
        "<",
        "<a",
        "<a x",
        "<a x=",
        "<a x='1",
        "<a></b",
        "<a>]]></a>",
        "<a><!-- -- --></a>",
        "<a/><b/>",
        "text",
        "<?xml version='2.0'?><a/>",
        "<a>&</a><",
        "<!DOCTYPE a [ <!FOO> ]><a/>",
        "<a><![CDATA[x</a>",
    ];
    for text in texts {
        reads_what_the_tokenizer_yields(text);
    }
}

#[test]
fn readers_of_equal_texts_read_equal_tokens() {
    let first = String::from("<a x='1'>t<b/></a>");
    let second = String::from("<a x='1'>t<b/></a>");
    let mut one = StreamReader::from(first.as_str());
    let mut two = StreamReader::from(second.as_str());
    loop {
        let token = one.next();
        assert_eq!(token, two.next());
        assert_eq!(one.depth(), two.depth());
        if token == Ok(None) {
            break;
        }
    }
}

#[test]
fn closing_tags_without_an_element_are_not_well_formed() {
    let texts = ["</a>", "<a></a></a>", "<a/></a>", "<a></a>text</a>", "<a><b/></a></b>"];
    for text in texts {
        let mut sr = StreamReader::from(text);
        let mut failed = false;
        loop {
            match sr.next() {
                Ok(Some(_)) => {}
                Ok(None) => break,
                Err(error) => {
                    assert!(matches!(error, Error::ParserError(_)));
                    failed = true;
                    break;
                }
            }
        }
        assert!(failed);
        assert_eq!(sr.depth(), 0);
    }
}
