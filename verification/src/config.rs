//! How a host type asks to be exposed: under which name, and with which
//! kind of handle.
use vstd::prelude::*;
use vstd::string::StringExecFns;

verus! {

/// The way a host type is exposed to scripts: its name in the script, and
/// whether its handles are light.
#[derive(Debug, PartialEq)]
pub struct Config {
    pub name: String,
    pub light: bool,
}

/// One option that a host type states about its exposure.
#[derive(Debug, PartialEq)]
pub enum ConfigAttrib {
    /// The name of the type in the script.
    Name(String),
    /// The handles of the type are light.
    Light,
}

/// The name that the first `n` options leave: that of the last option among
/// them that gives a name, else `name`.
pub open spec fn name_after(name: Seq<char>, attribs: Seq<ConfigAttrib>, n: nat) -> Seq<char>
    decreases n,
{
    if n == 0 || n > attribs.len() {
        name
    } else {
        match attribs[n - 1] {
            ConfigAttrib::Name(val) => val@,
            ConfigAttrib::Light => name_after(name, attribs, (n - 1) as nat),
        }
    }
}

/// Whether one of the options asks for light handles.
pub open spec fn asks_light(attribs: Seq<ConfigAttrib>) -> bool {
    exists|i: int| 0 <= i < attribs.len() && attribs[i] is Light
}

impl ConfigAttrib {
    /// Reads one option, given by its word and, for the name, the value
    /// behind it: `light`, or `name` with a value. Any other word, and
    /// `name` without a value, is refused with a message that quotes the
    /// word.
    pub fn from_option(option: &String, value: Option<String>) -> (r: Result<ConfigAttrib, String>)
        ensures
            match r {
                Ok(ConfigAttrib::Light) => option@ == "light"@,
                Ok(ConfigAttrib::Name(val)) => option@ == "name"@ && value == Some(val),
                Err(msg) => option@ != "light"@ && !(option@ == "name"@ && value is Some) && msg@
                    == "unrecognized config option '"@ + option@ + "'"@,
            },
    {
        if *option == "light".to_string() {
            return Ok(ConfigAttrib::Light);
        }
        if *option == "name".to_string() {
            match value {
                Some(val) => {
                    return Ok(ConfigAttrib::Name(val));
                },
                None => {},
            }
        }
        Err("unrecognized config option '".to_string().concat(option.as_str()).concat("'"))
    }
}

impl Config {
    /// The configuration that a list of options leaves for a type of the
    /// name `name`: the name that the last naming option gives, else `name`;
    /// light handles where any option asks for them.
    pub fn parse_from_attributes(name: String, attribs: &Vec<ConfigAttrib>) -> (r: Config)
        ensures
            r.name@ == name_after(name@, attribs@, attribs@.len()),
            r.light == asks_light(attribs@),
    {
        let mut config = Config { name, light: false };
        let mut i: usize = 0;
        while i < attribs.len()
            invariant
                i <= attribs.len(),
                config.name@ == name_after(name@, attribs@, i as nat),
                config.light == asks_light(attribs@.take(i as int)),
            decreases attribs.len() - i,
        {
            let ghost seen = attribs@.take(i as int);
            let ghost next = attribs@.take(i + 1);
            match &attribs[i] {
                ConfigAttrib::Name(val) => {
                    config.name = val.clone();
                    proof {
                        if asks_light(seen) {
                            let j = choose|j: int| 0 <= j < seen.len() && seen[j] is Light;
                            assert(next[j] is Light);
                        }
                        if asks_light(next) {
                            let j = choose|j: int| 0 <= j < next.len() && next[j] is Light;
                            assert(seen[j] is Light);
                        }
                    }
                },
                ConfigAttrib::Light => {
                    config.light = true;
                    assert(next[i as int] is Light);
                },
            }
            i += 1;
        }
        assert(attribs@.take(attribs@.len() as int) =~= attribs@);
        config
    }
}

impl Default for Config {
    fn default() -> (r: Config)
        ensures
            r.name@ == Seq::<char>::empty(),
            !r.light,
    {
        Config { name: String::new(), light: false }
    }
}

} // verus!
