//! Interface languages and the catalogue of every visible text.
//!
//! Each language is one value of the same `Strings` struct, so a text missing
//! in one language is a compile error. Money and dates keep the data's own
//! conventions (BRL) whatever the interface language.
use vstd::prelude::*;

use crate::text::{ascii_lower, chars_of, skip_leading, skip_trailing, trim, trim_end, trim_start};

verus! {

/// Languages of the interface.
#[derive(Clone, Copy, PartialEq, Eq, Debug)]
pub enum Locale {
    PtBr,
    En,
}

/// Every visible text of the interface, one field per text.
#[derive(Clone, Copy)]
pub struct Strings {
    pub lang: &'static str,
    pub meta_description: &'static str,
    pub title_login: &'static str,
    pub title_wallet: &'static str,
    pub lang_label: &'static str,
    pub intro_login: &'static str,
    pub intro_register: &'static str,
    pub username: &'static str,
    pub password: &'static str,
    pub sign_in: &'static str,
    pub create_account: &'static str,
    pub have_account: &'static str,
    pub new_here: &'static str,
    pub skip_link: &'static str,
    pub welcome: &'static str,
    pub nav_deposit: &'static str,
    pub nav_buy: &'static str,
    pub nav_sell: &'static str,
    pub nav_sync_quotes: &'static str,
    pub nav_logout: &'static str,
    pub sum_balance: &'static str,
    pub sum_holdings: &'static str,
    pub sum_net_worth: &'static str,
    pub sum_invested: &'static str,
    pub sum_result: &'static str,
    pub chart_title: &'static str,
    pub chart_aria: &'static str,
    pub chart_min: &'static str,
    pub chart_latest: &'static str,
    pub chart_max: &'static str,
    pub chart_period: &'static str,
    pub deposit_title: &'static str,
    pub deposit_amount_aria: &'static str,
    pub deposit_placeholder: &'static str,
    pub confirm: &'static str,
    pub buy_title: &'static str,
    pub buy_select_aria: &'static str,
    pub select_asset: &'static str,
    pub buy_qty_aria: &'static str,
    pub sell_title: &'static str,
    pub sell_select_aria: &'static str,
    pub select_position: &'static str,
    pub available: &'static str,
    pub sell_qty_aria: &'static str,
    pub quantity: &'static str,
    pub positions: &'static str,
    pub empty_title: &'static str,
    pub empty_hint: &'static str,
    pub th_asset: &'static str,
    pub th_price: &'static str,
    pub th_avg: &'static str,
    pub th_value: &'static str,
    pub th_result: &'static str,
    pub tx_title: &'static str,
    pub export_csv: &'static str,
    pub no_tx: &'static str,
    pub units_at: &'static str,
    pub pages_aria: &'static str,
    pub newer: &'static str,
    pub older: &'static str,
    pub page_label: &'static str,
    pub kind_deposit: &'static str,
    pub kind_buy: &'static str,
    pub kind_sell: &'static str,
    pub kind_other: &'static str,
    pub flash_deposit_done: &'static str,
    pub flash_buy_done: &'static str,
    pub flash_sell_done: &'static str,
    pub flash_quotes_done: &'static str,
    pub flash_invalid_amount: &'static str,
    pub flash_insufficient_balance: &'static str,
    pub flash_insufficient_holdings: &'static str,
    pub flash_asset_missing: &'static str,
    pub flash_bad_credentials: &'static str,
    pub flash_username_taken: &'static str,
    pub flash_too_many_attempts: &'static str,
    pub flash_csrf: &'static str,
    pub flash_quotes_unavailable: &'static str,
    pub unit_trillion: &'static str,
    pub unit_billion: &'static str,
    pub unit_million: &'static str,
    pub unit_thousand: &'static str,
}

/// The Brazilian Portuguese catalogue.
pub open spec fn pt_br_strings() -> Strings {
    Strings {
        lang: "pt-BR",
        meta_description: "carteira de investimentos — acompanhe ativos, registre compras, veja o lucro.",
        title_login: "wallet :: entrar",
        title_wallet: "wallet :: carteira",
        lang_label: "idioma",
        intro_login: "entre para acessar saldo, posições e histórico.",
        intro_register: "crie sua conta para simular uma carteira de investimentos.",
        username: "usuário",
        password: "senha",
        sign_in: "entrar",
        create_account: "criar conta",
        have_account: "já tem conta?",
        new_here: "novo por aqui?",
        skip_link: "pular para o conteúdo",
        welcome: "bem-vindo,",
        nav_deposit: "depositar",
        nav_buy: "comprar",
        nav_sell: "vender",
        nav_sync_quotes: "atualizar cotações",
        nav_logout: "sair",
        sum_balance: "saldo",
        sum_holdings: "ativos",
        sum_net_worth: "patrimônio",
        sum_invested: "investido",
        sum_result: "resultado dos ativos",
        chart_title: "evolução do patrimônio",
        chart_aria: "gráfico da evolução do patrimônio ao longo das últimas atualizações de cotação",
        chart_min: "mín",
        chart_latest: "último",
        chart_max: "máx",
        chart_period: "no período",
        deposit_title: "depositar saldo",
        deposit_amount_aria: "valor do depósito em reais",
        deposit_placeholder: "valor em R$",
        confirm: "confirmar",
        buy_title: "comprar ativo",
        buy_select_aria: "ativo para comprar",
        select_asset: "selecione um ativo",
        buy_qty_aria: "quantidade a comprar",
        sell_title: "vender ativo",
        sell_select_aria: "posição para vender",
        select_position: "selecione uma posição",
        available: "disponível:",
        sell_qty_aria: "quantidade a vender",
        quantity: "quantidade",
        positions: "posições",
        empty_title: "nenhum ativo ainda.",
        empty_hint: "deposite saldo e compre seu primeiro ativo.",
        th_asset: "ativo",
        th_price: "preço",
        th_avg: "médio",
        th_value: "valor",
        th_result: "resultado",
        tx_title: "últimas transações",
        export_csv: "exportar csv",
        no_tx: "sem movimentações.",
        units_at: "un. @",
        pages_aria: "páginas do extrato",
        newer: "‹ mais recentes",
        older: "mais antigas ›",
        page_label: "página",
        kind_deposit: "deposito",
        kind_buy: "compra",
        kind_sell: "venda",
        kind_other: "movimentacao",
        flash_deposit_done: "depósito realizado.",
        flash_buy_done: "compra realizada.",
        flash_sell_done: "venda realizada.",
        flash_quotes_done: "cotações atualizadas.",
        flash_invalid_amount: "quantia inválida — informe um valor positivo.",
        flash_insufficient_balance: "saldo insuficiente para esta compra.",
        flash_insufficient_holdings: "posição insuficiente para esta venda.",
        flash_asset_missing: "ativo inexistente.",
        flash_bad_credentials: "usuário ou senha incorretos.",
        flash_username_taken: "este nome de usuário já está em uso.",
        flash_too_many_attempts: "muitas tentativas — aguarde um instante e tente novamente.",
        flash_csrf: "a sessão do formulário expirou — tente novamente.",
        flash_quotes_unavailable: "cotações indisponíveis no momento — tente mais tarde.",
        unit_trillion: "tri",
        unit_billion: "bi",
        unit_million: "mi",
        unit_thousand: "mil",
    }
}

/// The English catalogue.
pub open spec fn en_strings() -> Strings {
    Strings {
        lang: "en",
        meta_description: "investment wallet — track assets, record purchases, watch your returns.",
        title_login: "wallet :: sign in",
        title_wallet: "wallet :: portfolio",
        lang_label: "language",
        intro_login: "sign in to see your balance, positions and history.",
        intro_register: "create your account to simulate an investment portfolio.",
        username: "username",
        password: "password",
        sign_in: "sign in",
        create_account: "create account",
        have_account: "already have an account?",
        new_here: "new here?",
        skip_link: "skip to content",
        welcome: "welcome,",
        nav_deposit: "deposit",
        nav_buy: "buy",
        nav_sell: "sell",
        nav_sync_quotes: "refresh quotes",
        nav_logout: "sign out",
        sum_balance: "cash",
        sum_holdings: "holdings",
        sum_net_worth: "net worth",
        sum_invested: "invested",
        sum_result: "holdings result",
        chart_title: "net worth over time",
        chart_aria: "chart of net worth across the latest quote updates",
        chart_min: "min",
        chart_latest: "latest",
        chart_max: "max",
        chart_period: "over the period",
        deposit_title: "deposit funds",
        deposit_amount_aria: "deposit amount in reais",
        deposit_placeholder: "amount in R$",
        confirm: "confirm",
        buy_title: "buy asset",
        buy_select_aria: "asset to buy",
        select_asset: "select an asset",
        buy_qty_aria: "quantity to buy",
        sell_title: "sell asset",
        sell_select_aria: "position to sell",
        select_position: "select a position",
        available: "available:",
        sell_qty_aria: "quantity to sell",
        quantity: "quantity",
        positions: "positions",
        empty_title: "no assets yet.",
        empty_hint: "deposit funds and buy your first asset.",
        th_asset: "asset",
        th_price: "price",
        th_avg: "avg cost",
        th_value: "value",
        th_result: "result",
        tx_title: "latest transactions",
        export_csv: "export csv",
        no_tx: "no activity.",
        units_at: "units @",
        pages_aria: "statement pages",
        newer: "‹ newer",
        older: "older ›",
        page_label: "page",
        kind_deposit: "deposit",
        kind_buy: "buy",
        kind_sell: "sell",
        kind_other: "transaction",
        flash_deposit_done: "deposit completed.",
        flash_buy_done: "purchase completed.",
        flash_sell_done: "sale completed.",
        flash_quotes_done: "quotes refreshed.",
        flash_invalid_amount: "invalid amount — enter a positive value.",
        flash_insufficient_balance: "insufficient balance for this purchase.",
        flash_insufficient_holdings: "insufficient position for this sale.",
        flash_asset_missing: "asset does not exist.",
        flash_bad_credentials: "incorrect username or password.",
        flash_username_taken: "this username is already taken.",
        flash_too_many_attempts: "too many attempts — wait a moment and try again.",
        flash_csrf: "the form session expired — try again.",
        flash_quotes_unavailable: "quotes unavailable right now — try again later.",
        unit_trillion: "T",
        unit_billion: "B",
        unit_million: "M",
        unit_thousand: "K",
    }
}

/// The catalogue of a language.
pub open spec fn strings_of(locale: Locale) -> Strings {
    match locale {
        Locale::PtBr => pt_br_strings(),
        Locale::En => en_strings(),
    }
}

fn pt_br() -> (s: Strings)
    ensures
        s == pt_br_strings(),
{
    Strings {
        lang: "pt-BR",
        meta_description: "carteira de investimentos — acompanhe ativos, registre compras, veja o lucro.",
        title_login: "wallet :: entrar",
        title_wallet: "wallet :: carteira",
        lang_label: "idioma",
        intro_login: "entre para acessar saldo, posições e histórico.",
        intro_register: "crie sua conta para simular uma carteira de investimentos.",
        username: "usuário",
        password: "senha",
        sign_in: "entrar",
        create_account: "criar conta",
        have_account: "já tem conta?",
        new_here: "novo por aqui?",
        skip_link: "pular para o conteúdo",
        welcome: "bem-vindo,",
        nav_deposit: "depositar",
        nav_buy: "comprar",
        nav_sell: "vender",
        nav_sync_quotes: "atualizar cotações",
        nav_logout: "sair",
        sum_balance: "saldo",
        sum_holdings: "ativos",
        sum_net_worth: "patrimônio",
        sum_invested: "investido",
        sum_result: "resultado dos ativos",
        chart_title: "evolução do patrimônio",
        chart_aria: "gráfico da evolução do patrimônio ao longo das últimas atualizações de cotação",
        chart_min: "mín",
        chart_latest: "último",
        chart_max: "máx",
        chart_period: "no período",
        deposit_title: "depositar saldo",
        deposit_amount_aria: "valor do depósito em reais",
        deposit_placeholder: "valor em R$",
        confirm: "confirmar",
        buy_title: "comprar ativo",
        buy_select_aria: "ativo para comprar",
        select_asset: "selecione um ativo",
        buy_qty_aria: "quantidade a comprar",
        sell_title: "vender ativo",
        sell_select_aria: "posição para vender",
        select_position: "selecione uma posição",
        available: "disponível:",
        sell_qty_aria: "quantidade a vender",
        quantity: "quantidade",
        positions: "posições",
        empty_title: "nenhum ativo ainda.",
        empty_hint: "deposite saldo e compre seu primeiro ativo.",
        th_asset: "ativo",
        th_price: "preço",
        th_avg: "médio",
        th_value: "valor",
        th_result: "resultado",
        tx_title: "últimas transações",
        export_csv: "exportar csv",
        no_tx: "sem movimentações.",
        units_at: "un. @",
        pages_aria: "páginas do extrato",
        newer: "‹ mais recentes",
        older: "mais antigas ›",
        page_label: "página",
        kind_deposit: "deposito",
        kind_buy: "compra",
        kind_sell: "venda",
        kind_other: "movimentacao",
        flash_deposit_done: "depósito realizado.",
        flash_buy_done: "compra realizada.",
        flash_sell_done: "venda realizada.",
        flash_quotes_done: "cotações atualizadas.",
        flash_invalid_amount: "quantia inválida — informe um valor positivo.",
        flash_insufficient_balance: "saldo insuficiente para esta compra.",
        flash_insufficient_holdings: "posição insuficiente para esta venda.",
        flash_asset_missing: "ativo inexistente.",
        flash_bad_credentials: "usuário ou senha incorretos.",
        flash_username_taken: "este nome de usuário já está em uso.",
        flash_too_many_attempts: "muitas tentativas — aguarde um instante e tente novamente.",
        flash_csrf: "a sessão do formulário expirou — tente novamente.",
        flash_quotes_unavailable: "cotações indisponíveis no momento — tente mais tarde.",
        unit_trillion: "tri",
        unit_billion: "bi",
        unit_million: "mi",
        unit_thousand: "mil",
    }
}

fn en() -> (s: Strings)
    ensures
        s == en_strings(),
{
    Strings {
        lang: "en",
        meta_description: "investment wallet — track assets, record purchases, watch your returns.",
        title_login: "wallet :: sign in",
        title_wallet: "wallet :: portfolio",
        lang_label: "language",
        intro_login: "sign in to see your balance, positions and history.",
        intro_register: "create your account to simulate an investment portfolio.",
        username: "username",
        password: "password",
        sign_in: "sign in",
        create_account: "create account",
        have_account: "already have an account?",
        new_here: "new here?",
        skip_link: "skip to content",
        welcome: "welcome,",
        nav_deposit: "deposit",
        nav_buy: "buy",
        nav_sell: "sell",
        nav_sync_quotes: "refresh quotes",
        nav_logout: "sign out",
        sum_balance: "cash",
        sum_holdings: "holdings",
        sum_net_worth: "net worth",
        sum_invested: "invested",
        sum_result: "holdings result",
        chart_title: "net worth over time",
        chart_aria: "chart of net worth across the latest quote updates",
        chart_min: "min",
        chart_latest: "latest",
        chart_max: "max",
        chart_period: "over the period",
        deposit_title: "deposit funds",
        deposit_amount_aria: "deposit amount in reais",
        deposit_placeholder: "amount in R$",
        confirm: "confirm",
        buy_title: "buy asset",
        buy_select_aria: "asset to buy",
        select_asset: "select an asset",
        buy_qty_aria: "quantity to buy",
        sell_title: "sell asset",
        sell_select_aria: "position to sell",
        select_position: "select a position",
        available: "available:",
        sell_qty_aria: "quantity to sell",
        quantity: "quantity",
        positions: "positions",
        empty_title: "no assets yet.",
        empty_hint: "deposit funds and buy your first asset.",
        th_asset: "asset",
        th_price: "price",
        th_avg: "avg cost",
        th_value: "value",
        th_result: "result",
        tx_title: "latest transactions",
        export_csv: "export csv",
        no_tx: "no activity.",
        units_at: "units @",
        pages_aria: "statement pages",
        newer: "‹ newer",
        older: "older ›",
        page_label: "page",
        kind_deposit: "deposit",
        kind_buy: "buy",
        kind_sell: "sell",
        kind_other: "transaction",
        flash_deposit_done: "deposit completed.",
        flash_buy_done: "purchase completed.",
        flash_sell_done: "sale completed.",
        flash_quotes_done: "quotes refreshed.",
        flash_invalid_amount: "invalid amount — enter a positive value.",
        flash_insufficient_balance: "insufficient balance for this purchase.",
        flash_insufficient_holdings: "insufficient position for this sale.",
        flash_asset_missing: "asset does not exist.",
        flash_bad_credentials: "incorrect username or password.",
        flash_username_taken: "this username is already taken.",
        flash_too_many_attempts: "too many attempts — wait a moment and try again.",
        flash_csrf: "the form session expired — try again.",
        flash_quotes_unavailable: "quotes unavailable right now — try again later.",
        unit_trillion: "T",
        unit_billion: "B",
        unit_million: "M",
        unit_thousand: "K",
    }
}

/// Name of the cookie that pins the explicit language choice.
pub const LANG_COOKIE: &'static str = "lang";

/// The primary subtag of a language tag: everything before the first `-` or `_`.
pub open spec fn primary_subtag(t: Seq<char>) -> Seq<char>
    decreases t.len(),
{
    if t.len() == 0 {
        t
    } else if t[0] == '-' || t[0] == '_' {
        Seq::empty()
    } else {
        seq![t[0]] + primary_subtag(t.drop_first())
    }
}

/// The language a tag names ("pt", "pt-BR", " en_US ", ...), by its primary
/// subtag, ignoring ASCII case and surrounding whitespace.
pub open spec fn locale_of_tag(t: Seq<char>) -> Option<Locale> {
    let p = primary_subtag(trim(t)).map_values(|c: char| ascii_lower(c));
    if p == seq!['p', 't'] {
        Some(Locale::PtBr)
    } else if p == seq!['e', 'n'] {
        Some(Locale::En)
    } else {
        None
    }
}

/// The canonical tag of a language, as written to the cookie.
pub open spec fn tag_of(locale: Locale) -> Seq<char> {
    match locale {
        Locale::PtBr => seq!['p', 't', '-', 'B', 'R'],
        Locale::En => seq!['e', 'n'],
    }
}

/// `h` cut at the first `sep`: the piece before it, and what follows it (if
/// the separator occurs).
pub open spec fn split_first(h: Seq<char>, sep: char) -> (Seq<char>, Option<Seq<char>>)
    decreases h.len(),
{
    if h.len() == 0 {
        (h, None)
    } else if h[0] == sep {
        (Seq::empty(), Some(h.drop_first()))
    } else {
        let (head, rest) = split_first(h.drop_first(), sep);
        (seq![h[0]] + head, rest)
    }
}

/// The first supported language of an `Accept-Language` list, in the order
/// the entries appear (quality weights are not compared).
pub open spec fn preferred_locale(h: Seq<char>) -> Option<Locale>
    decreases h.len(),
{
    let (entry, rest) = split_first(h, ',');
    let tag = split_first(entry, ';').0;
    match locale_of_tag(tag) {
        Some(l) => Some(l),
        None => match rest {
            Some(r) => if r.len() < h.len() {
                preferred_locale(r)
            } else {
                None
            },
            None => None,
        },
    }
}

/// The language of a request: the explicit cookie choice, else the browser's
/// preference, else Brazilian Portuguese.
pub open spec fn resolved_locale(cookie: Option<Seq<char>>, accept: Option<Seq<char>>) -> Locale {
    let from_cookie = match cookie {
        Some(c) => locale_of_tag(c),
        None => None,
    };
    let from_header = match accept {
        Some(h) => preferred_locale(h),
        None => None,
    };
    match from_cookie {
        Some(l) => l,
        None => match from_header {
            Some(l) => l,
            None => Locale::PtBr,
        },
    }
}

/// Position of the first `sep` in `cs[from..to]`, or `to`.
pub(crate) fn find_char(cs: &Vec<char>, from: usize, to: usize, sep: char) -> (k: usize)
    requires
        from <= to <= cs.len(),
    ensures
        from <= k <= to,
        forall|i: int| from <= i < k ==> cs@[i] != sep,
        k < to ==> cs@[k as int] == sep,
{
    let mut k = from;
    while k < to && cs[k] != sep
        invariant
            from <= k <= to <= cs.len(),
            forall|i: int| from <= i < k ==> cs@[i] != sep,
        decreases to - k,
    {
        k = k + 1;
    }
    k
}

pub(crate) proof fn lemma_split_first_at(h: Seq<char>, sep: char, k: int)
    requires
        0 <= k <= h.len(),
        forall|i: int| 0 <= i < k ==> h[i] != sep,
        k < h.len() ==> h[k] == sep,
    ensures
        split_first(h, sep).0 == h.subrange(0, k),
        split_first(h, sep).1 == (if k < h.len() { Some(h.subrange(k + 1, h.len() as int)) } else { None::<Seq<char>> }),
    decreases h.len(),
{
    if h.len() == 0 {
    } else if h[0] == sep {
        assert(k == 0);
        assert(h.subrange(0, 0) =~= Seq::<char>::empty());
        assert(h.drop_first() =~= h.subrange(1, h.len() as int));
    } else {
        let t = h.drop_first();
        assert forall|i: int| 0 <= i < k - 1 implies t[i] != sep by {
            assert(t[i] == h[i + 1]);
        }
        lemma_split_first_at(t, sep, k - 1);
        assert(seq![h[0]] + t.subrange(0, k - 1) =~= h.subrange(0, k));
        if k < h.len() {
            assert(t.subrange(k, t.len() as int) =~= h.subrange(k + 1, h.len() as int));
        }
    }
}

proof fn lemma_primary_subtag_at(t: Seq<char>, k: int)
    requires
        0 <= k <= t.len(),
        forall|i: int| 0 <= i < k ==> t[i] != '-' && t[i] != '_',
        k < t.len() ==> (t[k] == '-' || t[k] == '_'),
    ensures
        primary_subtag(t) == t.subrange(0, k),
    decreases t.len(),
{
    if t.len() == 0 {
    } else if t[0] == '-' || t[0] == '_' {
        assert(t.subrange(0, 0) =~= Seq::<char>::empty());
    } else {
        let u = t.drop_first();
        assert forall|i: int| 0 <= i < k - 1 implies u[i] != '-' && u[i] != '_' by {
            assert(u[i] == t[i + 1]);
        }
        lemma_primary_subtag_at(u, k - 1);
        assert(seq![t[0]] + u.subrange(0, k - 1) =~= t.subrange(0, k));
    }
}

/// The language named by the tag `cs[from..to]`.
fn locale_of_range(cs: &Vec<char>, from: usize, to: usize) -> (r: Option<Locale>)
    requires
        from <= to <= cs.len(),
    ensures
        r == locale_of_tag(cs@.subrange(from as int, to as int)),
{
    let a = skip_leading(cs, from, to);
    let b = skip_trailing(cs, a, to);
    let ghost t = cs@.subrange(from as int, to as int);
    proof {
        assert(trim(t) == cs@.subrange(a as int, b as int));
    }
    let mut k = a;
    while k < b && cs[k] != '-' && cs[k] != '_'
        invariant
            a <= k <= b <= cs.len(),
            forall|i: int| a <= i < k ==> cs@[i] != '-' && cs@[i] != '_',
        decreases b - k,
    {
        k = k + 1;
    }
    let ghost tt = cs@.subrange(a as int, b as int);
    proof {
        assert forall|i: int| 0 <= i < k - a implies tt[i] != '-' && tt[i] != '_' by {
            assert(tt[i] == cs@[a + i]);
        }
        lemma_primary_subtag_at(tt, k - a);
        assert(tt.subrange(0, k - a) =~= cs@.subrange(a as int, k as int));
    }
    let ghost p = cs@.subrange(a as int, k as int).map_values(|c: char| ascii_lower(c));
    if k - a == 2 {
        let c0 = cs[a];
        let c1 = cs[a + 1];
        proof {
            assert(p.len() == 2);
            assert(p[0] == ascii_lower(c0));
            assert(p[1] == ascii_lower(c1));
        }
        if (c0 == 'p' || c0 == 'P') && (c1 == 't' || c1 == 'T') {
            proof {
                assert(p =~= seq!['p', 't']);
            }
            return Some(Locale::PtBr);
        }
        if (c0 == 'e' || c0 == 'E') && (c1 == 'n' || c1 == 'N') {
            proof {
                assert(p =~= seq!['e', 'n']);
            }
            return Some(Locale::En);
        }
        proof {
            if p == seq!['p', 't'] {
                assert(p[0] == 'p' && p[1] == 't');
            }
            if p == seq!['e', 'n'] {
                assert(p[0] == 'e' && p[1] == 'n');
            }
        }
        None
    } else {
        proof {
            assert(p.len() != 2);
        }
        None
    }
}

impl Locale {
    /// Recognises a language tag ("pt", "pt-BR", "en-US", ...). Only the
    /// primary subtag counts, in any ASCII case.
    pub fn from_tag(tag: &str) -> (r: Option<Locale>)
        ensures
            r == locale_of_tag(tag@),
    {
        let cs = chars_of(tag);
        proof {
            assert(cs@.subrange(0, cs.len() as int) == cs@);
        }
        locale_of_range(&cs, 0, cs.len())
    }

    /// The text catalogue of this language.
    pub fn strings(self) -> (s: Strings)
        ensures
            s == strings_of(self),
    {
        match self {
            Locale::PtBr => pt_br(),
            Locale::En => en(),
        }
    }

    /// The canonical tag, written to the cookie and accepted back by `from_tag`.
    pub fn tag(self) -> (t: &'static str)
        ensures
            t@ == tag_of(self),
    {
        match self {
            Locale::PtBr => {
                proof {
                    reveal_strlit("pt-BR");
                }
                "pt-BR"
            },
            Locale::En => {
                proof {
                    reveal_strlit("en");
                }
                "en"
            },
        }
    }
}

/// The first supported language of the `Accept-Language` list `cs[from..to]`.
fn preferred_in_range(cs: &Vec<char>, from: usize, to: usize) -> (r: Option<Locale>)
    requires
        from <= to <= cs.len(),
    ensures
        r == preferred_locale(cs@.subrange(from as int, to as int)),
    decreases to - from,
{
    let ghost h = cs@.subrange(from as int, to as int);
    let comma = find_char(cs, from, to, ',');
    let semi = find_char(cs, from, comma, ';');
    proof {
        assert forall|i: int| 0 <= i < comma - from implies h[i] != ',' by {
            assert(h[i] == cs@[from + i]);
        }
        lemma_split_first_at(h, ',', comma - from);
        let entry = h.subrange(0, comma - from);
        assert(entry =~= cs@.subrange(from as int, comma as int));
        assert forall|i: int| 0 <= i < semi - from implies entry[i] != ';' by {
            assert(entry[i] == cs@[from + i]);
        }
        lemma_split_first_at(entry, ';', semi - from);
        assert(entry.subrange(0, semi - from) =~= cs@.subrange(from as int, semi as int));
        if comma < to {
            assert(h.subrange(comma - from + 1, h.len() as int) =~= cs@.subrange(comma + 1, to as int));
        }
    }
    match locale_of_range(cs, from, semi) {
        Some(l) => Some(l),
        None => {
            if comma < to {
                preferred_in_range(cs, comma + 1, to)
            } else {
                None
            }
        },
    }
}

/// First supported language in an `Accept-Language` header.
pub fn preferred_from_accept_language(header: &str) -> (r: Option<Locale>)
    ensures
        r == preferred_locale(header@),
{
    let cs = chars_of(header);
    proof {
        assert(cs@.subrange(0, cs.len() as int) == cs@);
    }
    preferred_in_range(&cs, 0, cs.len())
}

/// Resolves the language of a request: the explicit choice (cookie) beats the
/// browser's preference (`Accept-Language`), which beats Brazilian Portuguese.
pub fn resolve(lang_cookie: Option<&str>, accept_language: Option<&str>) -> (r: Locale)
    ensures
        r == resolved_locale(
            match lang_cookie { Some(c) => Some(c@), None => None },
            match accept_language { Some(h) => Some(h@), None => None },
        ),
{
    let from_cookie = match lang_cookie {
        Some(c) => Locale::from_tag(c),
        None => None,
    };
    match from_cookie {
        Some(l) => l,
        None => {
            let from_header = match accept_language {
                Some(h) => preferred_from_accept_language(h),
                None => None,
            };
            match from_header {
                Some(l) => l,
                None => Locale::PtBr,
            }
        },
    }
}

impl Strings {
    /// Label of a statement entry kind (`transactions.kind`), with a fallback
    /// for kinds the catalogue does not know.
    pub fn tx_kind(&self, kind: &str) -> (r: &'static str)
        ensures
            r == (if kind@ == "deposit"@ {
                self.kind_deposit
            } else if kind@ == "buy"@ {
                self.kind_buy
            } else if kind@ == "sell"@ {
                self.kind_sell
            } else {
                self.kind_other
            }),
    {
        if crate::text::str_eq(kind, "deposit") {
            self.kind_deposit
        } else if crate::text::str_eq(kind, "buy") {
            self.kind_buy
        } else if crate::text::str_eq(kind, "sell") {
            self.kind_sell
        } else {
            self.kind_other
        }
    }
}

/// The pieces of `tag + [sep] + tail` around its first `sep`, for a `tag`
/// without one.
proof fn lemma_split_after(tag: Seq<char>, sep: char, tail: Seq<char>)
    requires
        forall|i: int| 0 <= i < tag.len() ==> tag[i] != sep,
    ensures
        split_first(tag + seq![sep] + tail, sep) == (tag, Some(tail)),
        split_first(tag, sep) == (tag, None::<Seq<char>>),
{
    let h = tag + seq![sep] + tail;
    assert forall|i: int| 0 <= i < tag.len() implies h[i] != sep by {
        assert(h[i] == tag[i]);
    }
    lemma_split_first_at(h, sep, tag.len() as int);
    assert(h.subrange(0, tag.len() as int) =~= tag);
    assert(h.subrange(tag.len() as int + 1, h.len() as int) =~= tail);
    lemma_split_first_at(tag, sep, tag.len() as int);
    assert(tag.subrange(0, tag.len() as int) =~= tag);
}

/// An `Accept-Language` entry is read by its language tag, the part before
/// its first `;`: parameters such as a quality weight never change which
/// language is chosen, whether the entry is the last one or more follow.
pub proof fn law_entry_parameters_are_ignored(tag: Seq<char>, params: Seq<char>, rest: Seq<char>)
    requires
        forall|i: int| 0 <= i < tag.len() ==> tag[i] != ',' && tag[i] != ';',
        forall|i: int| 0 <= i < params.len() ==> params[i] != ',',
    ensures
        preferred_locale(tag + seq![';'] + params + seq![','] + rest) == preferred_locale(
            tag + seq![','] + rest,
        ),
        preferred_locale(tag + seq![';'] + params) == preferred_locale(tag),
{
    let entry = tag + seq![';'] + params;
    assert forall|i: int| 0 <= i < entry.len() implies entry[i] != ',' by {
        if i < tag.len() {
            assert(entry[i] == tag[i]);
        } else if i > tag.len() {
            assert(entry[i] == params[i - tag.len() - 1]);
        }
    }
    assert forall|i: int| 0 <= i < tag.len() implies tag[i] != ',' by {}
    assert forall|i: int| 0 <= i < tag.len() implies tag[i] != ';' by {}
    lemma_split_after(entry, ',', rest);
    lemma_split_after(tag, ';', params);
    lemma_split_after(tag, ',', rest);
    assert(entry + seq![','] + rest =~= tag + seq![';'] + params + seq![','] + rest);
    let h1 = tag + seq![';'] + params + seq![','] + rest;
    let h2 = tag + seq![','] + rest;
    assert(split_first(h1, ',') == (entry, Some(rest)));
    assert(split_first(h2, ',') == (tag, Some(rest)));
    assert(split_first(tag, ';') == (tag, None::<Seq<char>>));
    assert(preferred_locale(h1) == preferred_locale(h2));
    assert(split_first(entry, ',') == (entry, None::<Seq<char>>));
    assert(split_first(tag, ',') == (tag, None::<Seq<char>>));
}

/// Entries are tried in order: the first whose tag names a supported
/// language decides, and one that names none is passed over.
pub proof fn law_first_supported_entry_decides(tag: Seq<char>, rest: Seq<char>)
    requires
        forall|i: int| 0 <= i < tag.len() ==> tag[i] != ',' && tag[i] != ';',
    ensures
        preferred_locale(tag + seq![','] + rest) == (match locale_of_tag(tag) {
            Some(l) => Some(l),
            None => preferred_locale(rest),
        }),
{
    assert forall|i: int| 0 <= i < tag.len() implies tag[i] != ',' by {}
    assert forall|i: int| 0 <= i < tag.len() implies tag[i] != ';' by {}
    lemma_split_after(tag, ',', rest);
    lemma_split_after(tag, ';', Seq::empty());
}

/// The canonical tag of every language names that language again.
pub proof fn lemma_tag_round_trips(locale: Locale)
    ensures
        locale_of_tag(tag_of(locale)) == Some(locale),
{
    let t = tag_of(locale);
    assert(trim_start(t) == t);
    assert(trim_end(t) == t);
    match locale {
        Locale::PtBr => {
            let u = t.drop_first().drop_first();
            assert(u[0] == '-');
            assert(primary_subtag(u) == Seq::<char>::empty());
            assert(primary_subtag(t.drop_first()) == seq!['t'] + primary_subtag(u));
            assert(primary_subtag(t) =~= seq!['p', 't']);
            assert(primary_subtag(t).map_values(|c: char| ascii_lower(c)) =~= seq!['p', 't']);
        },
        Locale::En => {
            let u = t.drop_first().drop_first();
            assert(u.len() == 0);
            assert(primary_subtag(u) == u);
            assert(primary_subtag(t.drop_first()) == seq!['n'] + primary_subtag(u));
            assert(primary_subtag(t) == seq!['e'] + primary_subtag(t.drop_first()));
            assert(primary_subtag(t) =~= seq!['e', 'n']);
            assert(primary_subtag(t).map_values(|c: char| ascii_lower(c)) =~= seq!['e', 'n']);
        },
    }
}

} // verus!
