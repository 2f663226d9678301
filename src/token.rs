use vstd::prelude::*;

verus! {

/// The value of one named argument of a command request.
pub enum ArgValue {
    Text(String),
    Number(u32),
}

/// One named argument of a command request, such as `{"operator": "delete"}`.
pub struct CommandArg {
    pub name: String,
    pub value: ArgValue,
}

/// A request to run the command `id` with the arguments `args`, in order.
pub struct CommandRequest {
    pub id: String,
    pub args: Vec<CommandArg>,
}

/// What a binding of the action trie produces.
pub enum Token {
    Digit(u32),
    Operator(String),
    Motion(String),
    Command(CommandRequest),
}

pub enum ArgValueView {
    Text(Seq<char>),
    Number(u32),
}

pub struct CommandView {
    pub id: Seq<char>,
    pub args: Seq<(Seq<char>, ArgValueView)>,
}

pub enum TokenView {
    Digit(u32),
    Operator(Seq<char>),
    Motion(Seq<char>),
    Command(CommandView),
}

impl View for ArgValue {
    type V = ArgValueView;

    open spec fn view(&self) -> ArgValueView {
        match self {
            ArgValue::Text(s) => ArgValueView::Text(s@),
            ArgValue::Number(n) => ArgValueView::Number(*n),
        }
    }
}

impl View for CommandArg {
    type V = (Seq<char>, ArgValueView);

    open spec fn view(&self) -> (Seq<char>, ArgValueView) {
        (self.name@, self.value@)
    }
}

impl View for CommandRequest {
    type V = CommandView;

    open spec fn view(&self) -> CommandView {
        CommandView { id: self.id@, args: self.args@.map_values(|a: CommandArg| a@) }
    }
}

impl View for Token {
    type V = TokenView;

    open spec fn view(&self) -> TokenView {
        match self {
            Token::Digit(d) => TokenView::Digit(*d),
            Token::Operator(s) => TokenView::Operator(s@),
            Token::Motion(s) => TokenView::Motion(s@),
            Token::Command(c) => TokenView::Command(c@),
        }
    }
}

impl ArgValue {
    pub fn duplicate(&self) -> (r: ArgValue)
        ensures
            r@ == self@,
    {
        match self {
            ArgValue::Text(s) => ArgValue::Text(s.clone()),
            ArgValue::Number(n) => ArgValue::Number(*n),
        }
    }
}

impl CommandArg {
    /// A text argument.
    pub fn text(name: &str, value: String) -> (r: CommandArg)
        ensures
            r@ == (name@, ArgValueView::Text(value@)),
    {
        CommandArg { name: String::from_str(name), value: ArgValue::Text(value) }
    }

    /// A number argument.
    pub fn number(name: &str, value: u32) -> (r: CommandArg)
        ensures
            r@ == (name@, ArgValueView::Number(value)),
    {
        CommandArg { name: String::from_str(name), value: ArgValue::Number(value) }
    }

    pub fn duplicate(&self) -> (r: CommandArg)
        ensures
            r@ == self@,
    {
        CommandArg { name: self.name.clone(), value: self.value.duplicate() }
    }
}

impl CommandRequest {
    /// A request for the command `id` without arguments.
    pub fn new(id: &str) -> (r: CommandRequest)
        ensures
            r@.id == id@,
            r@.args.len() == 0,
    {
        CommandRequest { id: String::from_str(id), args: Vec::new() }
    }

    pub fn duplicate(&self) -> (r: CommandRequest)
        ensures
            r@ == self@,
    {
        let mut args: Vec<CommandArg> = Vec::new();
        let mut i: usize = 0;
        while i < self.args.len()
            invariant
                i <= self.args@.len(),
                args@.len() == i,
                forall|j: int| 0 <= j < i ==> (#[trigger] args@[j])@ == self.args@[j]@,
            decreases self.args@.len() - i,
        {
            let a = self.args[i].duplicate();
            args.push(a);
            i = i + 1;
        }
        assert(args@.map_values(|a: CommandArg| a@) =~= self.args@.map_values(|a: CommandArg| a@));
        CommandRequest { id: self.id.clone(), args }
    }
}

impl Token {
    pub fn duplicate(&self) -> (r: Token)
        ensures
            r@ == self@,
    {
        match self {
            Token::Digit(d) => Token::Digit(*d),
            Token::Operator(s) => Token::Operator(s.clone()),
            Token::Motion(s) => Token::Motion(s.clone()),
            Token::Command(c) => Token::Command(c.duplicate()),
        }
    }
}

} // verus!
