use xmlreader::ElementEnd;
use xmlreader::Error;
use xmlreader::StreamReader;
use xmlreader::SubTreeReader;
use xmlreader::TextPos;
use xmlreader::Token;

#[test]
fn subtree_yields_the_element_and_stops() {
    let mut sr = StreamReader::from("<r><p a='1'><q/>t</p><s/></r>");
    sr.next_tag().unwrap();
    sr.next_tag().unwrap();
    let close = Token::ElementEnd { end: ElementEnd::Close("", "p"), start: 17 };
    {
        let mut sub = SubTreeReader::new(&mut sr).unwrap();
        assert_eq!(sub.initial_depth, 1);
        assert!(!sub.eos);
        let mut tokens = Vec::new();
        while let Some(token) = sub.next().unwrap() {
            tokens.push(token);
        }
        assert_eq!(
            tokens,
            vec![
                Token::Attribute { prefix: "", local: "a", value: "1", start: 6 },
                Token::ElementEnd { end: ElementEnd::Open, start: 11 },
                Token::ElementStart { prefix: "", local: "q", start: 12 },
                Token::ElementEnd { end: ElementEnd::Empty, start: 14 },
                Token::Text { text: "t", start: 16 },
                close,
            ]
        );
        assert!(sub.eos);
        assert_eq!(sub.next(), Ok(None));
        assert_eq!(sub.next_tag(), Ok(None));
        assert_eq!(sub.current(), Some(close));
    }
    assert_eq!(sr.current(), Some(close));
    assert_eq!(sr.depth(), 1);
    assert_eq!(sr.next(), Ok(Some(Token::ElementStart { prefix: "", local: "s", start: 21 })));
}

#[test]
fn subtree_opened_behind_the_attributes() {
    let mut sr = StreamReader::from("<r><p a='1'><q/>t</p><s/></r>");
    sr.next_tag().unwrap();
    sr.next_tag().unwrap();
    assert_eq!(sr.attribute("a"), Ok(Some("1")));
    assert_eq!(sr.depth(), 2);
    {
        let mut sub = SubTreeReader::new(&mut sr).unwrap();
        assert_eq!(sub.initial_depth, 1);
        assert_eq!(sub.next_tag(), Ok(Some(Token::ElementStart { prefix: "", local: "q", start: 12 })));
        assert_eq!(sub.next_tag(), Ok(None));
        assert!(sub.eos);
    }
    assert_eq!(sr.local_name(), Ok("p"));
    assert_eq!(sr.depth(), 1);
    assert_eq!(sr.next_tag(), Ok(Some(Token::ElementStart { prefix: "", local: "s", start: 21 })));
}

#[test]
fn subtree_of_an_empty_element() {
    let mut sr = StreamReader::from("<r><p/><s/></r>");
    sr.next_tag().unwrap();
    sr.next_tag().unwrap();
    let empty = Token::ElementEnd { end: ElementEnd::Empty, start: 5 };
    {
        let mut sub = SubTreeReader::new(&mut sr).unwrap();
        assert_eq!(sub.next(), Ok(Some(empty)));
        assert_eq!(sub.next(), Ok(None));
        assert_eq!(sub.next(), Ok(None));
    }
    assert_eq!(sr.current(), Some(empty));
    assert_eq!(sr.next_tag(), Ok(Some(Token::ElementStart { prefix: "", local: "s", start: 7 })));
    let mut sub = SubTreeReader::new(&mut sr).unwrap();
    assert_eq!(sub.next_tag(), Ok(None));
    assert!(sub.eos);
}

#[test]
fn subtree_cannot_be_opened_outside_a_start_tag() {
    let mut sr = StreamReader::from("<a>t</a>");
    assert_eq!(SubTreeReader::new(&mut sr).err(), Some(Error::Unexpected(None)));
    sr.next().unwrap();
    assert!(SubTreeReader::new(&mut sr).is_ok());
    sr.next().unwrap();
    assert!(SubTreeReader::new(&mut sr).is_ok());
    sr.next().unwrap();
    assert_eq!(
        SubTreeReader::new(&mut sr).err(),
        Some(Error::Unexpected(Some(TextPos { row: 1, col: 4 })))
    );
    sr.next().unwrap();
    assert_eq!(
        SubTreeReader::new(&mut sr).err(),
        Some(Error::Unexpected(Some(TextPos { row: 1, col: 5 })))
    );
    assert_eq!(sr.local_name(), Ok("a"));
}

#[test]
fn subtree_opened_on_an_attribute() {
    let mut sr = StreamReader::from("<r><p a='1' b='2'>t</p><s/></r>");
    sr.next_tag().unwrap();
    sr.next_tag().unwrap();
    sr.next().unwrap();
    let mut sub = SubTreeReader::new(&mut sr).unwrap();
    assert_eq!(sub.initial_depth, 1);
    assert_eq!(sub.next_tag(), Ok(None));
    assert_eq!(sub.local_name(), Ok("p"));
}

#[test]
fn subtrees_nest() {
    let mut sr = StreamReader::from("<r><p><q><x/><y>t</y></q><q2/>t<q3></q3></p><s/></r>");
    sr.next_tag().unwrap();
    sr.next_tag().unwrap();
    {
        let mut outer = SubTreeReader::new(&mut sr).unwrap();
        let mut seen = Vec::new();
        while outer.next_tag().unwrap().is_some() {
            seen.push(outer.local_name().unwrap());
            if outer.local_name() == Ok("q") {
                let mut inner = SubTreeReader::new(&mut outer).unwrap();
                let mut inside = Vec::new();
                while inner.next_tag().unwrap().is_some() {
                    inside.push(inner.local_name().unwrap());
                }
                assert_eq!(inside, vec!["x", "y"]);
                assert!(inner.eos);
                assert_eq!(inner.depth(), 2);
            }
        }
        assert_eq!(seen, vec!["q", "q2", "q3"]);
        assert!(outer.eos);
    }
    assert_eq!(sr.local_name(), Ok("p"));
    assert!(sr.is_end_token());
    assert_eq!(sr.next_tag(), Ok(Some(Token::ElementStart { prefix: "", local: "s", start: 44 })));
}

#[test]
fn subtree_hands_queries_on() {
    let mut sr = StreamReader::from("<r><p a='1'>t</p></r>");
    sr.next_tag().unwrap();
    let mut sub = SubTreeReader::new(&mut sr).unwrap();
    assert_eq!(sub.next_tag(), Ok(Some(Token::ElementStart { prefix: "", local: "p", start: 3 })));
    assert!(sub.has_name());
    assert!(!sub.has_text());
    assert_eq!(sub.local_name(), Ok("p"));
    assert_eq!(sub.depth(), 1);
    assert_eq!(sub.attribute_count(), Ok(1));
    assert_eq!(sub.attribute_name(0), Ok(Some("a")));
    assert_eq!(sub.attribute_value(0), Ok(Some("1")));
    assert_eq!(sub.attribute("a"), Ok(Some("1")));
    assert_eq!(sub.is_empty_element(), Ok(false));
    assert_eq!(sub.element_text(), Ok(Some("t")));
    assert_eq!(sub.text(), Err(Error::Unexpected(Some(TextPos { row: 1, col: 14 }))));
    assert_eq!(sub.next(), Ok(Some(Token::ElementEnd { end: ElementEnd::Close("", "r"), start: 17 })));
    assert_eq!(sub.next(), Ok(None));
}

#[test]
fn subtree_at_the_end_of_input() {
    let mut sr = StreamReader::from("<r><p><q>");
    sr.next_tag().unwrap();
    sr.next_tag().unwrap();
    let mut sub = SubTreeReader::new(&mut sr).unwrap();
    assert_eq!(sub.next_tag(), Ok(Some(Token::ElementStart { prefix: "", local: "q", start: 6 })));
    assert_eq!(sub.next_tag(), Ok(None));
    assert!(!sub.eos);
    assert_eq!(sub.current(), None);
}

#[test]
fn subtree_passes_tokenizer_errors_on() {
    let mut sr = StreamReader::from("<r><p><1/></p></r>");
    sr.next_tag().unwrap();
    sr.next_tag().unwrap();
    let mut sub = SubTreeReader::new(&mut sr).unwrap();
    assert!(sub.next().unwrap().is_some());
    assert!(matches!(sub.next(), Err(Error::ParserError(_))));
    let mut sr = StreamReader::from("<r><p>t<1/></p></r>");
    sr.next_tag().unwrap();
    sr.next_tag().unwrap();
    let mut sub = SubTreeReader::new(&mut sr).unwrap();
    assert!(matches!(sub.next_tag(), Err(Error::ParserError(_))));
}

struct Animal {
    name: String,
    meats: Vec<String>,
}

struct Vegetable {
    name: String,
    preparations: Vec<String>,
}

fn read_meats(sr: &mut SubTreeReader<'_, '_>, meats: &mut Vec<String>) -> Result<(), Error> {
    let mut sr = SubTreeReader::new(sr)?;
    while sr.next_tag()?.is_some() {
        if sr.local_name()? == "name" {
            meats.push(sr.element_text()?.unwrap().to_owned());
        }
    }
    Ok(())
}

fn read_animals(sr: &mut StreamReader<'_>, animals: &mut Vec<Animal>) -> Result<(), Error> {
    let mut sr = SubTreeReader::new(sr)?;
    while sr.next_tag()?.is_some() {
        assert_eq!(sr.local_name()?, "animal");
        let mut animal = Animal { name: sr.attribute("name")?.unwrap().to_owned(), meats: Vec::new() };
        read_meats(&mut sr, &mut animal.meats)?;
        animals.push(animal);
    }
    Ok(())
}

fn read_preparations(sr: &mut SubTreeReader<'_, '_>, preparations: &mut Vec<String>) -> Result<(), Error> {
    let mut sr = SubTreeReader::new(sr)?;
    while sr.next_tag()?.is_some() {
        if sr.local_name()? == "preparation" {
            preparations.push(sr.element_text()?.unwrap().to_owned());
        }
    }
    Ok(())
}

fn read_vegetable(sr: &mut SubTreeReader<'_, '_>, vegetable: &mut Vegetable) -> Result<(), Error> {
    let mut sr = SubTreeReader::new(sr)?;
    while sr.next_tag()?.is_some() {
        if sr.local_name()? == "name" {
            vegetable.name = sr.element_text()?.unwrap().to_owned();
        } else if sr.local_name()? == "preparations" {
            read_preparations(&mut sr, &mut vegetable.preparations)?;
        }
    }
    Ok(())
}

fn read_vegetables(sr: &mut StreamReader<'_>, vegetables: &mut Vec<Vegetable>) -> Result<(), Error> {
    let mut sr = SubTreeReader::new(sr)?;
    while sr.next_tag()?.is_some() {
        assert_eq!(sr.local_name()?, "vegetable");
        let mut vegetable = Vegetable { name: String::new(), preparations: Vec::new() };
        read_vegetable(&mut sr, &mut vegetable)?;
        vegetables.push(vegetable);
    }
    Ok(())
}

#[test]
fn subtrees_read_a_document_by_descent() {
    let xml = "<?xml version=\"1.0\" encoding=\"UTF-8\"?>
<deliciousFoods>
  <animals>
    <animal name=\"Pig\">
      <meat><name>Prosciutto</name></meat>
      <meat><name>Speck</name></meat>
    </animal>
    <animal name=\"Cow\">
      <meat><name>Clod</name></meat>
    </animal>
  </animals>
  <vegetables>
    <vegetable>
      <name>Potato</name>
      <preparations>
        <preparation>Fried</preparation>
        <preparation>Baked</preparation>
      </preparations>
    </vegetable>
    <vegetable>
      <name>Leek</name>
      <preparations/>
    </vegetable>
  </vegetables>
</deliciousFoods>
";
    let mut sr = StreamReader::from(xml);
    let mut animals = Vec::new();
    let mut vegetables = Vec::new();
    while sr.next_tag().unwrap().is_some() {
        if sr.local_name().unwrap() == "animals" {
            read_animals(&mut sr, &mut animals).unwrap();
        } else if sr.local_name().unwrap() == "vegetables" {
            read_vegetables(&mut sr, &mut vegetables).unwrap();
        }
    }
    assert_eq!(sr.depth(), 0);
    let names: Vec<&str> = animals.iter().map(|a| a.name.as_str()).collect();
    assert_eq!(names, vec!["Pig", "Cow"]);
    assert_eq!(animals[0].meats, vec!["Prosciutto", "Speck"]);
    assert_eq!(animals[1].meats, vec!["Clod"]);
    let names: Vec<&str> = vegetables.iter().map(|v| v.name.as_str()).collect();
    assert_eq!(names, vec!["Potato", "Leek"]);
    assert_eq!(vegetables[0].preparations, vec!["Fried", "Baked"]);
    assert!(vegetables[1].preparations.is_empty());
}

#[test]
fn subtree_notes_its_end_with_the_last_token() {
    let mut sr = StreamReader::from("<r><p><q/></p><s/></r>");
    sr.next_tag().unwrap();
    sr.next_tag().unwrap();
    let mut sub = SubTreeReader::new(&mut sr).unwrap();
    assert!(sub.next().unwrap().is_some());
    assert!(!sub.eos);
    assert!(sub.next().unwrap().is_some());
    assert!(!sub.eos);
    assert_eq!(sub.next(), Ok(Some(Token::ElementEnd { end: ElementEnd::Empty, start: 8 })));
    assert!(!sub.eos);
    assert_eq!(sub.next(), Ok(Some(Token::ElementEnd { end: ElementEnd::Close("", "p"), start: 10 })));
    assert!(sub.eos);
    assert_eq!(sub.next(), Ok(None));
    assert!(sub.eos);
}

#[test]
fn subtree_sees_the_end_that_another_reader_reached() {
    let mut sr = StreamReader::from("<r><p><q/></p><s/></r>");
    sr.next_tag().unwrap();
    sr.next_tag().unwrap();
    let mut outer = SubTreeReader::new(&mut sr).unwrap();
    {
        let mut inner = SubTreeReader::new(&mut outer).unwrap();
        assert_eq!(inner.initial_depth, 1);
        while inner.next().unwrap().is_some() {}
    }
    assert!(!outer.eos);
    assert_eq!(outer.next(), Ok(None));
    assert!(outer.eos);
    assert_eq!(outer.local_name(), Ok("p"));
}
