//! The environment the bot runs in and the emotes it uses there.

use vstd::prelude::*;

verus! {

/// The environment the bot runs in.
#[derive(Debug, Clone, Copy, PartialEq, Eq, Structural)]
pub enum Env {
    Dev,
    Prod,
}

impl Env {
    /// The environment's name, as it is written in the `ENV` variable.
    pub fn name(&self) -> (name: &'static str)
        ensures
            name == match *self {
                Env::Dev => "dev",
                Env::Prod => "prod",
            },
    {
        match self {
            Env::Dev => "dev",
            Env::Prod => "prod",
        }
    }

    /// The environment named `name`: `dev` or `prod`, exactly.
    pub fn from_name(name: &str) -> (env: Option<Env>)
        ensures
            name@ == "dev"@ ==> env == Some(Env::Dev),
            name@ == "prod"@ ==> env == Some(Env::Prod),
            name@ != "dev"@ && name@ != "prod"@ ==> env is None,
    {
        proof {
            reveal_strlit("dev");
            reveal_strlit("prod");
            assert("dev"@.len() != "prod"@.len());
        }
        let name = String::from_str(name);
        if name == String::from_str("dev") {
            Some(Env::Dev)
        } else if name == String::from_str("prod") {
            Some(Env::Prod)
        } else {
            None
        }
    }
}

/// The custom emotes the bot writes into its messages.
#[derive(Debug, Clone, Copy)]
pub struct Emote {
    pub wow: &'static str,
    pub fubu_laugh: &'static str,
    pub scrajj: &'static str,
    pub anw: &'static str,
    pub wat: &'static str,
    pub maji: &'static str,
    pub ee: &'static str,
    pub baaka: &'static str,
    pub manuke: &'static str,
    pub wawawa: &'static str,
    pub hehe: &'static str,
    pub hayaku: &'static str,
    pub goofyahh: &'static str,
}

/// The emotes of the development server.
pub open spec fn dev_emotes() -> Emote {
    Emote {
        wow: "<:wow:1376760017486741544>",
        fubu_laugh: "<:fubu_laugh:1375302817778106490>",
        scrajj: "<a:scrajj:1375305497267146874>",
        anw: "<a:aintnoway:1375305628444004473>",
        wat: "<:wat:1373080615313739858>",
        maji: "<:maji:1398028508160065717>",
        ee: "<:ee:1398028499058429952>",
        baaka: "<:baaka:1398028489654800424>",
        manuke: "<:manuke:1398028480620396655>",
        wawawa: "<:wawawa:1398028471095001352>",
        hehe: "<:hehe:1398028460290736159>",
        hayaku: "<:hayaku:1398028448022401025>",
        goofyahh: "<a:goofyahh:1398031476917796894>",
    }
}

/// The emotes of the production server.
pub open spec fn prod_emotes() -> Emote {
    Emote {
        wow: "<:wow:1377207933930049608>",
        fubu_laugh: "<:fubu_laugh:1377208303460941864>",
        scrajj: "<a:scrajj:1377208217783894118>",
        anw: "<a:aintnoway:1377208154265485385>",
        wat: "<:wat:1377208406460469338>",
        maji: "<:maji:1398029826618691675>",
        ee: "<:ee:1398029819501084672>",
        baaka: "<:baaka:1398029811276058786>",
        manuke: "<:manuke:1398029802631467048>",
        wawawa: "<:wawawa:1398029792841830400>",
        hehe: "<:hehe:1398029785187221636>",
        hayaku: "<:hayaku:1398029776236581119>",
        goofyahh: "<a:goofyahh:1398031608661016780>>",
    }
}

/// The emotes of the server that `env` runs in.
pub fn emotes(env: Env) -> (e: Emote)
    ensures
        e == match env {
            Env::Dev => dev_emotes(),
            Env::Prod => prod_emotes(),
        },
{
    match env {
        Env::Dev => Emote {
            wow: "<:wow:1376760017486741544>",
            fubu_laugh: "<:fubu_laugh:1375302817778106490>",
            scrajj: "<a:scrajj:1375305497267146874>",
            anw: "<a:aintnoway:1375305628444004473>",
            wat: "<:wat:1373080615313739858>",
            maji: "<:maji:1398028508160065717>",
            ee: "<:ee:1398028499058429952>",
            baaka: "<:baaka:1398028489654800424>",
            manuke: "<:manuke:1398028480620396655>",
            wawawa: "<:wawawa:1398028471095001352>",
            hehe: "<:hehe:1398028460290736159>",
            hayaku: "<:hayaku:1398028448022401025>",
            goofyahh: "<a:goofyahh:1398031476917796894>",
        },
        Env::Prod => Emote {
            wow: "<:wow:1377207933930049608>",
            fubu_laugh: "<:fubu_laugh:1377208303460941864>",
            scrajj: "<a:scrajj:1377208217783894118>",
            anw: "<a:aintnoway:1377208154265485385>",
            wat: "<:wat:1377208406460469338>",
            maji: "<:maji:1398029826618691675>",
            ee: "<:ee:1398029819501084672>",
            baaka: "<:baaka:1398029811276058786>",
            manuke: "<:manuke:1398029802631467048>",
            wawawa: "<:wawawa:1398029792841830400>",
            hehe: "<:hehe:1398029785187221636>",
            hayaku: "<:hayaku:1398029776236581119>",
            goofyahh: "<a:goofyahh:1398031608661016780>>",
        },
    }
}

/// `emote` followed by `text`.
fn with_text(emote: &str, text: &str) -> (s: String)
    ensures
        s@ == emote@ + text@,
{
    let mut s = String::from_str(emote);
    s.append(text);
    s
}

/// The insults a wrong pick may get, made from the emotes `e`.
pub open spec fn spec_insults(e: Emote) -> Seq<Seq<char>> {
    seq![
        e.wat@ + " noob"@,
        e.wat@ + " nuh-uh"@,
        e.wat@ + " what is he cooking"@,
        e.wat@ + " refund nitro"@,
        e.wat@ + " trolling are we?"@,
        e.wat@ + " nt bro"@,
        e.wat@ + " smooth brain"@,
        e.wat@ + " stop"@,
        e.wat@ + " ?"@,
        e.wat@ + " so bad"@,
        e.wat@ + " meow"@,
        e.wat@ + " imagine"@,
        e.wat@ + " no"@,
        e.wat@ + " wrong"@,
        e.wat@ + " ぴえん"@,
        e.wat@ + " あほ"@,
        e.wat@,
        e.fubu_laugh@,
        e.scrajj@,
        e.anw@,
        e.maji@ + " マ？"@,
        e.ee@ + " え？"@,
        e.baaka@ + " ばーか！"@,
        e.manuke@ + " アンタがまぬけ？"@,
        e.wawawa@ + " How?"@,
        e.hehe@ + " あほ！"@,
        e.hayaku@ + " 早く！"@,
        e.goofyahh@ + e.goofyahh@ + e.goofyahh@,
    ]
}

/// The insults a wrong pick may get, made from the emotes `e`.
pub fn insults(e: &Emote) -> (all: Vec<String>)
    ensures
        crate::text::views(all@) == spec_insults(*e),
{
    let mut all: Vec<String> = Vec::new();
    all.push(with_text(e.wat, " noob"));
    all.push(with_text(e.wat, " nuh-uh"));
    all.push(with_text(e.wat, " what is he cooking"));
    all.push(with_text(e.wat, " refund nitro"));
    all.push(with_text(e.wat, " trolling are we?"));
    all.push(with_text(e.wat, " nt bro"));
    all.push(with_text(e.wat, " smooth brain"));
    all.push(with_text(e.wat, " stop"));
    all.push(with_text(e.wat, " ?"));
    all.push(with_text(e.wat, " so bad"));
    all.push(with_text(e.wat, " meow"));
    all.push(with_text(e.wat, " imagine"));
    all.push(with_text(e.wat, " no"));
    all.push(with_text(e.wat, " wrong"));
    all.push(with_text(e.wat, " ぴえん"));
    all.push(with_text(e.wat, " あほ"));
    all.push(String::from_str(e.wat));
    all.push(String::from_str(e.fubu_laugh));
    all.push(String::from_str(e.scrajj));
    all.push(String::from_str(e.anw));
    all.push(with_text(e.maji, " マ？"));
    all.push(with_text(e.ee, " え？"));
    all.push(with_text(e.baaka, " ばーか！"));
    all.push(with_text(e.manuke, " アンタがまぬけ？"));
    all.push(with_text(e.wawawa, " How?"));
    all.push(with_text(e.hehe, " あほ！"));
    all.push(with_text(e.hayaku, " 早く！"));
    let mut goofy = String::from_str(e.goofyahh);
    goofy.append(e.goofyahh);
    goofy.append(e.goofyahh);
    all.push(goofy);
    assert(crate::text::views(all@) =~= spec_insults(*e));
    all
}

} // verus!
