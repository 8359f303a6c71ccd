use vstd::prelude::*;

verus! {

/// The most common English words, one per line.
pub const ENGLISH: &'static str = "the\nbe\nof\nand\na\nto\nin\nhe\nhave\nit\nthat\nfor\nthey\ni\nwith\nas\nnot\non\nshe\nat\nby\nthis\nwe\nyou\ndo\nbut\nfrom\nor\nwhich\none\nwould\nall\nwill\nthere\nsay\nwho\nmake\nwhen\ncan\nmore\nif\nno\nman\nout\nother\nso\nwhat\ntime\nup\ngo\nabout\nthan\ninto\ncould\nstate\nonly\nnew\nyear\nsome\ntake\ncome\nthese\nknow\nsee\nuse\nget\nlike\nthen\nfirst\nany\nwork\nnow\nmay\nsuch\ngive\nover\nthink\nmost\neven\nfind\nday\nalso\nafter\nway\nmany\nmust\nlook\nbefore\ngreat\nback\nthrough\nlong\nwhere\nmuch\nshould\nwell\npeople\ndown\nown\njust\nbecause\ngood\neach\nthose\nfeel\nseem\nhow\nhigh\ntoo\nplace\nlittle\nworld\nvery\nstill\nnation\nhand\nold\nlife\ntell\nwrite\nbecome\nhere\nshow\nhouse\nboth\nbetween\nneed\nmean\ncall\ndevelop\nunder\nlast\nright\nmove\nthing\ngeneral\nschool\nnever\nsame\nanother\nbegin\nwhile\nnumber\npart\nturn\nreal\nleave\nmight\nwant\npoint\nform\noff\nchild\nfew\nsmall\nsince\nagainst\nask\nlate\nhome\ninterest\nlarge\nperson\nend\nopen\npublic\nfollow\nduring\npresent\nwithout\nagain\nhold\ngovern\naround\npossible\nhead\nconsider\nword\nprogram\nproblem\nhowever\nlead\nsystem\nset\norder\neye\nplan\nrun\nkeep\nface\nfact\ngroup\nplay\nstand\nincrease\nearly\ncourse\nchange\nhelp\nline\n";

/// A longer English word list ("english 1k"), one word per line.
pub const ENGLISH_1K: &'static str = "the\nbe\nof\nand\na\nto\nin\nhe\nhave\nit\nthat\nfor\nthey\ni\nwith\nas\nnot\non\nshe\nat\nby\nthis\nwe\nyou\ndo\nbut\nfrom\nor\nwhich\none\nwould\nall\nwill\nthere\nsay\nwho\nmake\nwhen\ncan\nmore\nif\nno\nman\nout\nother\nso\nwhat\ntime\nup\ngo\nabout\nthan\ninto\ncould\nstate\nonly\nnew\nyear\nsome\ntake\ncome\nthese\nknow\nsee\nuse\nget\nlike\nthen\nfirst\nany\nwork\nnow\nmay\nsuch\ngive\nover\nthink\nmost\neven\nfind\nday\nalso\nafter\nway\nmany\nmust\nlook\nbefore\ngreat\nback\nthrough\nlong\nwhere\nmuch\nshould\nwell\npeople\ndown\nown\njust\nbecause\ngood\neach\nthose\nfeel\nseem\nhow\nhigh\ntoo\nplace\nlittle\nworld\nvery\nstill\nnation\nhand\nold\nlife\ntell\nwrite\nbecome\nhere\nshow\nhouse\nboth\nbetween\nneed\nmean\ncall\ndevelop\nunder\nlast\nright\nmove\nthing\ngeneral\nschool\nnever\nsame\nanother\nbegin\nwhile\nnumber\npart\nturn\nreal\nleave\nmight\nwant\npoint\nform\noff\nchild\nfew\nsmall\nsince\nagainst\nask\nlate\nhome\ninterest\nlarge\nperson\nend\nopen\npublic\nfollow\nduring\npresent\nwithout\nagain\nhold\ngovern\naround\npossible\nhead\nconsider\nword\nprogram\nproblem\nhowever\nlead\nsystem\nset\norder\neye\nplan\nrun\nkeep\nface\nfact\ngroup\nplay\nstand\nincrease\nearly\ncourse\nchange\nhelp\nline\ncity\ncommunity\nname\npresident\nteam\nminute\nidea\nkid\nbody\ninformation\nnothing\nago\nsocial\nunderstand\nwhether\nwatch\ntogether\nparent\nstop\nanything\ncreate\nalready\nspeak\nothers\nread\nlevel\nallow\nadd\noffice\nspend\ndoor\nhealth\nart\nsure\nwar\nhistory\nparty\nwithin\ngrow\nresult\nmorning\nwalk\nreason\nlow\nwin\nresearch\ngirl\nguy\nfood\nmoment\nhimself\nair\nteacher\nforce\noffer\nenough\neducation\nacross\nalthough\nremember\nfoot\nsecond\nboy\nmaybe\ntoward\nable\nage\npolicy\neverything\nlove\nprocess\nmusic\nincluding\nappear\nactually\nbuy\nprobably\nhuman\nwait\nserve\nmarket\ndie\nsend\nexpect\nsense\nbuild\nstay\nfall\noh\ncut\ncollege\ndeath\nsomeone\nexperience\nbehind\nreach\nlocal\nkill\nsix\nremain\neffect\nyeah\nsuggest\nclass\ncontrol\nraise\ncare\nperhaps\nhard\nfield\nelse\npass\nformer\nsell\nmajor\nsometimes\nrequire\nalong\ndevelopment\nthemselves\nreport\nrole\nbetter\neconomic\neffort\ndecide\nrate\nstrong\nheart\ndrug\nleader\nlight\nvoice\nwife\nwhole\npolice\nmind\nfinally\npull\nreturn\nfree\nmilitary\nprice\n";

/// A longer English word list ("english 5k"), one word per line.
pub const ENGLISH_5K: &'static str = "the\nbe\nof\nand\na\nto\nin\nhe\nhave\nit\nthat\nfor\nthey\ni\nwith\nas\nnot\non\nshe\nat\nby\nthis\nwe\nyou\ndo\nbut\nfrom\nor\nwhich\none\nwould\nall\nwill\nthere\nsay\nwho\nmake\nwhen\ncan\nmore\nif\nno\nman\nout\nother\nso\nwhat\ntime\nup\ngo\nabout\nthan\ninto\ncould\nstate\nonly\nnew\nyear\nsome\ntake\ncome\nthese\nknow\nsee\nuse\nget\nlike\nthen\nfirst\nany\nwork\nnow\nmay\nsuch\ngive\nover\nthink\nmost\neven\nfind\nday\nalso\nafter\nway\nmany\nmust\nlook\nbefore\ngreat\nback\nthrough\nlong\nwhere\nmuch\nshould\nwell\npeople\ndown\nown\njust\nbecause\ngood\neach\nthose\nfeel\nseem\nhow\nhigh\ntoo\nplace\nlittle\nworld\nvery\nstill\nnation\nhand\nold\nlife\ntell\nwrite\nbecome\nhere\nshow\nhouse\nboth\nbetween\nneed\nmean\ncall\ndevelop\nunder\nlast\nright\nmove\nthing\ngeneral\nschool\nnever\nsame\nanother\nbegin\nwhile\nnumber\npart\nturn\nreal\nleave\nmight\nwant\npoint\nform\noff\nchild\nfew\nsmall\nsince\nagainst\nask\nlate\nhome\ninterest\nlarge\nperson\nend\nopen\npublic\nfollow\nduring\npresent\nwithout\nagain\nhold\ngovern\naround\npossible\nhead\nconsider\nword\nprogram\nproblem\nhowever\nlead\nsystem\nset\norder\neye\nplan\nrun\nkeep\nface\nfact\ngroup\nplay\nstand\nincrease\nearly\ncourse\nchange\nhelp\nline\ncity\ncommunity\nname\npresident\nteam\nminute\nidea\nkid\nbody\ninformation\nnothing\nago\nsocial\nunderstand\nwhether\nwatch\ntogether\nparent\nstop\nanything\ncreate\nalready\nspeak\nothers\nread\nlevel\nallow\nadd\noffice\nspend\ndoor\nhealth\nart\nsure\nwar\nhistory\nparty\nwithin\ngrow\nresult\nmorning\nwalk\nreason\nlow\nwin\nresearch\ngirl\nguy\nfood\nmoment\nhimself\nair\nteacher\nforce\noffer\nenough\neducation\nacross\nalthough\nremember\nfoot\nsecond\nboy\nmaybe\ntoward\nable\nage\npolicy\neverything\nlove\nprocess\nmusic\nincluding\nappear\nactually\nbuy\nprobably\nhuman\nwait\nserve\nmarket\ndie\nsend\nexpect\nsense\nbuild\nstay\nfall\noh\ncut\ncollege\ndeath\nsomeone\nexperience\nbehind\nreach\nlocal\nkill\nsix\nremain\neffect\nyeah\nsuggest\nclass\ncontrol\nraise\ncare\nperhaps\nhard\nfield\nelse\npass\nformer\nsell\nmajor\nsometimes\nrequire\nalong\ndevelopment\nthemselves\nreport\nrole\nbetter\neconomic\neffort\ndecide\nrate\nstrong\nheart\ndrug\nleader\nlight\nvoice\nwife\nwhole\npolice\nmind\nfinally\npull\nreturn\nfree\nmilitary\nprice\nabandon\nability\nabsence\nabsolute\nabsorb\nabstract\nabuse\nacademic\naccelerate\naccent\nacceptable\naccess\naccident\naccompany\naccomplish\naccurate\naccuse\nachieve\nacid\nacknowledge\nacquire\nadapt\nadequate\nadjust\nadminister\nadmire\nadolescent\nadopt\nadvance\nadventure\nadvocate\naffair\nafford\naggressive\nagency\nagenda\naggregate\nalarm\nalbum\nalcohol\nalien\nalign\nallegation\nalliance\nallocate\nalter\nalternative\namateur\nambition\namend\nanalyst\nancestor\nanchor\nangle\nanniversary\nannounce\nannual\nanticipate\nanxiety\napparent\nappeal\napplause\nappoint\nappreciate\napproach\nappropriate\napprove\narchitect\narchive\narena\nargue\narrange\narrest\narrival\nartificial\naside\naspect\nassemble\nassert\nassess\nasset\nassign\nassist\nassume\nassure\nathlete\natmosphere\nattach\nattain\nattempt\nattitude\nattorney\nattract\naudience\nauthority\nautomatic\navailability\naverage\navoid\nawait\naward\naware\n";

/// The longest English word list ("english 10k"), one word per line.
pub const ENGLISH_10K: &'static str = "the\nbe\nof\nand\na\nto\nin\nhe\nhave\nit\nthat\nfor\nthey\ni\nwith\nas\nnot\non\nshe\nat\nby\nthis\nwe\nyou\ndo\nbut\nfrom\nor\nwhich\none\nwould\nall\nwill\nthere\nsay\nwho\nmake\nwhen\ncan\nmore\nif\nno\nman\nout\nother\nso\nwhat\ntime\nup\ngo\nabout\nthan\ninto\ncould\nstate\nonly\nnew\nyear\nsome\ntake\ncome\nthese\nknow\nsee\nuse\nget\nlike\nthen\nfirst\nany\nwork\nnow\nmay\nsuch\ngive\nover\nthink\nmost\neven\nfind\nday\nalso\nafter\nway\nmany\nmust\nlook\nbefore\ngreat\nback\nthrough\nlong\nwhere\nmuch\nshould\nwell\npeople\ndown\nown\njust\nbecause\ngood\neach\nthose\nfeel\nseem\nhow\nhigh\ntoo\nplace\nlittle\nworld\nvery\nstill\nnation\nhand\nold\nlife\ntell\nwrite\nbecome\nhere\nshow\nhouse\nboth\nbetween\nneed\nmean\ncall\ndevelop\nunder\nlast\nright\nmove\nthing\ngeneral\nschool\nnever\nsame\nanother\nbegin\nwhile\nnumber\npart\nturn\nreal\nleave\nmight\nwant\npoint\nform\noff\nchild\nfew\nsmall\nsince\nagainst\nask\nlate\nhome\ninterest\nlarge\nperson\nend\nopen\npublic\nfollow\nduring\npresent\nwithout\nagain\nhold\ngovern\naround\npossible\nhead\nconsider\nword\nprogram\nproblem\nhowever\nlead\nsystem\nset\norder\neye\nplan\nrun\nkeep\nface\nfact\ngroup\nplay\nstand\nincrease\nearly\ncourse\nchange\nhelp\nline\ncity\ncommunity\nname\npresident\nteam\nminute\nidea\nkid\nbody\ninformation\nnothing\nago\nsocial\nunderstand\nwhether\nwatch\ntogether\nparent\nstop\nanything\ncreate\nalready\nspeak\nothers\nread\nlevel\nallow\nadd\noffice\nspend\ndoor\nhealth\nart\nsure\nwar\nhistory\nparty\nwithin\ngrow\nresult\nmorning\nwalk\nreason\nlow\nwin\nresearch\ngirl\nguy\nfood\nmoment\nhimself\nair\nteacher\nforce\noffer\nenough\neducation\nacross\nalthough\nremember\nfoot\nsecond\nboy\nmaybe\ntoward\nable\nage\npolicy\neverything\nlove\nprocess\nmusic\nincluding\nappear\nactually\nbuy\nprobably\nhuman\nwait\nserve\nmarket\ndie\nsend\nexpect\nsense\nbuild\nstay\nfall\noh\ncut\ncollege\ndeath\nsomeone\nexperience\nbehind\nreach\nlocal\nkill\nsix\nremain\neffect\nyeah\nsuggest\nclass\ncontrol\nraise\ncare\nperhaps\nhard\nfield\nelse\npass\nformer\nsell\nmajor\nsometimes\nrequire\nalong\ndevelopment\nthemselves\nreport\nrole\nbetter\neconomic\neffort\ndecide\nrate\nstrong\nheart\ndrug\nleader\nlight\nvoice\nwife\nwhole\npolice\nmind\nfinally\npull\nreturn\nfree\nmilitary\nprice\nabandon\nability\nabsence\nabsolute\nabsorb\nabstract\nabuse\nacademic\naccelerate\naccent\nacceptable\naccess\naccident\naccompany\naccomplish\naccurate\naccuse\nachieve\nacid\nacknowledge\nacquire\nadapt\nadequate\nadjust\nadminister\nadmire\nadolescent\nadopt\nadvance\nadventure\nadvocate\naffair\nafford\naggressive\nagency\nagenda\naggregate\nalarm\nalbum\nalcohol\nalien\nalign\nallegation\nalliance\nallocate\nalter\nalternative\namateur\nambition\namend\nanalyst\nancestor\nanchor\nangle\nanniversary\nannounce\nannual\nanticipate\nanxiety\napparent\nappeal\napplause\nappoint\nappreciate\napproach\nappropriate\napprove\narchitect\narchive\narena\nargue\narrange\narrest\narrival\nartificial\naside\naspect\nassemble\nassert\nassess\nasset\nassign\nassist\nassume\nassure\nathlete\natmosphere\nattach\nattain\nattempt\nattitude\nattorney\nattract\naudience\nauthority\nautomatic\navailability\naverage\navoid\nawait\naward\naware\nabbey\nabdomen\nabide\nabolish\nabort\nabound\nabrupt\nabsentee\nabstain\nabsurd\nabundance\nacademy\nacclaim\naccolade\naccordion\naccountant\naccumulate\naccustom\nacoustic\nacquaint\nacre\nacrylic\nactivist\nacute\nadamant\naddict\nadhere\nadjacent\nadmiral\nadobe\nadoration\nadorn\nadrift\nadvent\nadverse\nadvisory\naerial\naesthetic\naffection\naffirm\naffluent\nafloat\naftermath\nagile\nagitate\nagony\nairborne\nairfare\nalchemy\nalcove\nalfalfa\nalgae\nalibi\nalkaline\nallergy\nalley\nallure\nalmond\naloof\nalpine\naltitude\namber\nambiguous\nambulance\namenity\namnesty\nample\namplify\namusement\nanarchy\nanatomy\nanecdote\nanemia\nangelic\nanguish\nanimate\nankle\nannex\nannotate\nanomaly\nantenna\nanthem\nantique\nantler\nanvil\napathy\napex\naphid\napology\napparel\nappendix\nappetite\napricot\naptitude\naquarium\narbiter\narcade\narcher\nardent\narid\narmada\naroma\narsenal\nartery\nartisan\nascend\nashore\nasphalt\naspire\nassortment\nasterisk\nastound\nasylum\natlas\natrium\nattic\nauburn\nauction\naudacity\naugment\naurora\naustere\navalanche\navid\naxle\nazure\n";

/// Common Spanish words, one per line.
pub const SPANISH: &'static str = "de\nla\nque\nel\nen\ny\na\nlos\nse\ndel\nlas\nun\npor\ncon\nno\nuna\nsu\npara\nes\nal\nlo\ncomo\nmás\no\npero\nsus\nle\nha\nme\nsi\nsin\nsobre\neste\nya\nentre\ncuando\ntodo\nesta\nser\nson\ndos\ntambién\nfue\nhabía\nera\nmuy\naños\nhasta\ndesde\nestá\nmi\nporque\nqué\nsólo\nhan\nyo\nhay\nvez\npuede\ntodos\nasí\nnos\nni\nparte\ntiene\nél\nuno\ndonde\nbien\ntiempo\nmismo\nese\nahora\ncada\n";

/// Common French words, one per line.
pub const FRENCH: &'static str = "de\nla\nle\net\nles\ndes\nen\nun\ndu\nune\nque\nest\npour\nqui\ndans\npar\nplus\npas\nau\nsur\nne\nse\nce\nil\nsont\nou\nmais\ncomme\non\ntout\nnous\nsa\nfait\nété\naussi\nleur\nbien\npeut\nces\ny\ndeux\nans\nencore\nentre\nelle\naprès\nsans\nses\navec\navoir\nfaire\nmême\ntrès\ntemps\n";

/// Common German words, one per line.
pub const GERMAN: &'static str = "der\ndie\nund\nin\nden\nvon\nzu\ndas\nmit\nsich\ndes\nauf\nfür\nist\nim\ndem\nnicht\nein\neine\nals\nauch\nes\nan\nwerden\naus\ner\nhat\ndass\nsie\nnach\nwird\nbei\neiner\num\nam\nsind\nnoch\nwie\neinem\nüber\neinen\nso\nzum\nwar\nhaben\nnur\noder\naber\nvor\nzur\nbis\nmehr\ndurch\nman\n";

/// Common Portuguese words, one per line.
pub const PORTUGUESE: &'static str = "de\na\no\nque\ne\ndo\nda\nem\num\npara\né\ncom\nnão\numa\nos\nno\nse\nna\npor\nmais\nas\ndos\ncomo\nmas\nfoi\nao\nele\ndas\ntem\nà\nseu\nsua\nou\nser\nquando\nmuito\nhá\nnos\njá\nestá\neu\ntambém\nsó\npelo\npela\naté\nisso\nela\nentre\nera\ndepois\nsem\nmesmo\naos\nter\nseus\n";

/// Common Italian words, one per line.
pub const ITALIAN: &'static str = "di\ne\nil\nla\nche\nin\na\nper\nun\ndel\nnon\nè\nuna\nsono\nsi\nda\nle\ndei\ncon\nal\nlo\ncome\nma\ndella\npiù\nanche\nnel\nalla\nse\nci\ngli\nha\nio\nmi\nquesto\nti\ntutto\nsuo\nquando\nmolto\ncosa\nfare\ndove\nbene\nora\nsempre\ntempo\nvita\ngiorno\ncasa\nprima\ndopo\n";

/// Common Dutch words, one per line.
pub const DUTCH: &'static str = "de\nen\nvan\nik\nte\ndat\ndie\nin\neen\nhij\nhet\nniet\nzijn\nis\nwas\nop\naan\nmet\nals\nvoor\nhad\ner\nmaar\nom\nhem\ndan\nzou\nof\nwat\nmijn\nmen\ndit\nzo\ndoor\nover\nze\nzich\nbij\nook\ntot\nje\nmij\nuit\nder\ndaar\nhaar\nnaar\nheb\nhoe\nheeft\nhebben\ndeze\n";

/// Common Swedish words, one per line.
pub const SWEDISH: &'static str = "och\ni\natt\ndet\nsom\nen\npå\när\nav\nför\nmed\ntill\nden\nhar\nde\ninte\nom\nett\nhan\nmen\nvar\njag\nsig\nfrån\nvi\nså\nkan\nman\nnär\når\nsäger\nhon\nunder\nockså\nefter\neller\nnu\nsin\ndär\nvid\nmot\nska\nskulle\nkommer\nut\nfår\nfinns\nvara\nhade\nalla\nandra\n";

/// Rust snippets, separated by lines holding `---`.
pub const CODE_RUST: &'static str = "fn fibonacci(n: u64) -> u64 {\n    if n < 2 {\n        return n;\n    }\n    fibonacci(n - 1) + fibonacci(n - 2)\n}\n---\nfn main() {\n    let words = vec![\"hello\", \"world\"];\n    for word in &words {\n        println!(\"{}\", word);\n    }\n}\n";

/// Python snippets, separated by lines holding `---`.
pub const CODE_PYTHON: &'static str = "def factorial(n):\n    if n == 0:\n        return 1\n    return n * factorial(n - 1)\n---\ndef bubble_sort(items):\n    for i in range(len(items)):\n        for j in range(len(items) - i - 1):\n            if items[j] > items[j + 1]:\n                items[j], items[j + 1] = items[j + 1], items[j]\n    return items\n";

/// JavaScript snippets, separated by lines holding `---`.
pub const CODE_JAVASCRIPT: &'static str = "function gcd(a, b) {\n    while (b !== 0) {\n        const t = b;\n        b = a % b;\n        a = t;\n    }\n    return a;\n}\n---\nconst reverse = (s) => {\n    return s.split(\"\").reverse().join(\"\");\n};\n";

/// TypeScript snippets, separated by lines holding `---`.
pub const CODE_TYPESCRIPT: &'static str = "function sum(values: number[]): number {\n    let total = 0;\n    for (const v of values) {\n        total += v;\n    }\n    return total;\n}\n---\ninterface Point {\n    x: number;\n    y: number;\n}\n";

/// Go snippets, separated by lines holding `---`.
pub const CODE_GO: &'static str = "func reverse(s string) string {\n    r := []rune(s)\n    for i, j := 0, len(r)-1; i < j; i, j = i+1, j-1 {\n        r[i], r[j] = r[j], r[i]\n    }\n    return string(r)\n}\n---\nfunc main() {\n    fmt.Println(\"hello, world\")\n}\n";

/// C snippets, separated by lines holding `---`.
pub const CODE_C: &'static str = "int gcd(int a, int b) {\n    while (b != 0) {\n        int t = b;\n        b = a % b;\n        a = t;\n    }\n    return a;\n}\n---\nint main(void) {\n    printf(\"hello, world\\n\");\n    return 0;\n}\n";

/// C++ snippets, separated by lines holding `---`.
pub const CODE_CPP: &'static str = "int factorial(int n) {\n    return n <= 1 ? 1 : n * factorial(n - 1);\n}\n---\nint main() {\n    std::vector<int> v = {3, 1, 2};\n    std::sort(v.begin(), v.end());\n    return 0;\n}\n";

/// Java snippets, separated by lines holding `---`.
pub const CODE_JAVA: &'static str = "public static int max(int[] values) {\n    int best = values[0];\n    for (int v : values) {\n        if (v > best) {\n            best = v;\n        }\n    }\n    return best;\n}\n---\npublic class Hello {\n    public static void main(String[] args) {\n        System.out.println(\"hello, world\");\n    }\n}\n";

/// Quotes, one per line: the source, a tab, and the text.
pub const QUOTES: &'static str = "Albert Einstein\tImagination is more important than knowledge.\nOscar Wilde\tBe yourself; everyone else is already taken.\nConfucius\tIt does not matter how slowly you go as long as you do not stop.\nMark Twain\tThe secret of getting ahead is getting started.\nLao Tzu\tThe journey of a thousand miles begins with one step.\nSeneca\tLuck is what happens when preparation meets opportunity.\nAristotle\tWe are what we repeatedly do. Excellence, then, is not an act, but a habit.\nMarie Curie\tNothing in life is to be feared, it is only to be understood.\n";


} // verus!
