use schemajen::{generate, Call, Error, JsonType, Number, TypeAccumulator};
use vstd::prelude::{nat, Seq};

/// Takes fields of every kind but arrays, and keeps count of the calls.
struct Picky {
    calls: usize,
    text: String,
}

// The functions that only a proof reads are never called.
impl vstd::view::View for Picky {
    type V = ();

    fn view(&self) {}
}

impl TypeAccumulator for Picky {
    fn open_types(_: ()) -> nat {
        unreachable!()
    }

    fn name_prefix(_: ()) -> Seq<char> {
        unreachable!()
    }

    fn refusal(_: (), _: Call) -> Option<Error> {
        unreachable!()
    }

    fn apply(_: (), _: Call) {}

    fn rendered(_: ()) -> Seq<char> {
        unreachable!()
    }

    fn ended(_: ()) {}

    fn lemma_taken_call(_: (), _: Call) {}

    fn end(&mut self) -> String {
        self.text.clone()
    }

    fn number(&mut self, key: &str, _number: Number) -> Result<(), Error> {
        self.calls += 1;
        self.text += key;
        Ok(())
    }

    fn boolean(&mut self, key: &str) -> Result<(), Error> {
        self.calls += 1;
        self.text += key;
        Ok(())
    }

    fn string(&mut self, key: &str) -> Result<(), Error> {
        self.calls += 1;
        self.text += key;
        Ok(())
    }

    fn unknown(&mut self, key: &str) -> Result<(), Error> {
        self.calls += 1;
        self.text += key;
        Ok(())
    }

    fn array(&mut self, _key: &str, _ty: JsonType) -> Result<(), Error> {
        self.calls += 1;
        Err(Error::TypeNotSupported)
    }

    fn object(&mut self, key: &str, _object_name: &str) -> Result<(), Error> {
        self.calls += 1;
        self.text += key;
        Ok(())
    }

    fn push_object_type(&mut self, _object_name: &str) -> Result<(), Error> {
        self.calls += 1;
        Ok(())
    }

    fn pop_object_type(&mut self) -> Result<(), Error> {
        self.calls += 1;
        Ok(())
    }

    fn prefered_object_name(&self) -> String {
        String::from("P")
    }
}

#[test]
fn an_accumulator_that_turns_a_call_down_ends_the_run() {
    let mut picky = Picky { calls: 0, text: String::new() };
    assert_eq!(
        generate(&mut picky, "T", r#"{"a":1,"b":[1],"c":2}"#),
        Err(Error::TypeNotSupported)
    );
    assert_eq!(picky.calls, 3);
    assert_eq!(picky.text, "a");
}

#[test]
fn an_accumulator_s_refusal_comes_before_a_later_error() {
    let mut picky = Picky { calls: 0, text: String::new() };
    assert_eq!(
        generate(&mut picky, "T", r#"{"b":[1],"c":[1,"x"]}"#),
        Err(Error::TypeNotSupported)
    );
    let mut picky = Picky { calls: 0, text: String::new() };
    assert_eq!(
        generate(&mut picky, "T", r#"{"c":[1,"x"],"b":[1]}"#),
        Err(Error::DifferingArrayType)
    );
    assert_eq!(picky.calls, 1);
}

#[test]
fn an_accumulator_of_one_s_own_is_driven_like_the_others() {
    let mut picky = Picky { calls: 0, text: String::new() };
    assert_eq!(
        generate(&mut picky, "T", r#"{"a":1,"o":{"q":true},"z":null}"#).unwrap(),
        "aqoz"
    );
    assert_eq!(picky.calls, 8);
}
