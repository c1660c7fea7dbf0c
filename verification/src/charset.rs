//! Character sets: presets and the set of characters a text needs.

use vstd::prelude::*;
use crate::text::{chars_to_string, push_str, str_chars, vec_contains};
use crate::order::{int_keys, is_stable_order, key_before, lemma_stable_order_covers, stable_order, stable_order_of};

verus! {

/// A named character set.
#[derive(Clone, Copy, Debug, PartialEq, Eq, Structural)]
pub enum CharsetPreset {
    Ascii,
    Numbers,
    Latin1,
    CommonPunct,
    /// The 3755 common hanzi of GB2312 level 1, in ascending code-point order.
    CommonZh,
    Custom,
}

/// Printable ASCII, `' '` to `'~'`.
pub open spec fn ascii_printable() -> Seq<char> {
    Seq::new(95, |i: int| (32 + i) as char)
}

/// Printable Latin-1: printable ASCII, then U+00A0 to U+00FF.
pub open spec fn latin1_printable() -> Seq<char> {
    ascii_printable() + Seq::new(96, |i: int| (160 + i) as char)
}

/// How many parts the GB2312 level-1 hanzi are kept in.
pub open spec fn gb2312_parts() -> int {
    38
}

/// Part `k` of the GB2312 level-1 hanzi: a hundred of them (the last part fewer),
/// in ascending code-point order.
pub open spec fn gb2312_part(k: int) -> Seq<char> {
    if k == 0 {
        "一丁七万丈三上下不与丑专且世丘丙业丛东丝丢两严丧个丫中丰串临丸丹为主丽举乃久么义之乌乍乎乏乐乒乓乔乖乘乙九乞也习乡书买乱乳乾了予争事二于亏云互五井亚些亡亢交亥亦产亨亩享京亭亮亲人亿什仁仅仆仇今介仍从仑"@
    } else if k == 1 {
        "仓仔仕他仗付仙仟代令以仪们仰仲件价任份仿企伊伍伎伏伐休众优伙会伞伟传伤伦伪伯估伴伶伸伺似佃但位低住佐佑体何余佛作你佣佩佬佯佰佳使侄侈例侍侗供依侠侣侥侦侧侨侩侮侯侵便促俄俊俏俐俗俘保俞信俩俭修俯俱俺倍倒"@
    } else if k == 2 {
        "倔倘候倚借倡倦倪债值倾假偏做停健偶偷偿傀傅傈傍傣储催傲傻像僚僧僳僵僻儒儡儿允元兄充兆先光克免兑兔党兜兢入全八公六兰共关兴兵其具典兹养兼兽冀内冈冉册再冒冕冗写军农冠冤冬冯冰冲决况冶冷冻净凄准凉凋凌减凑凛"@
    } else if k == 3 {
        "凝几凡凤凭凯凰凳凶凸凹出击函凿刀刁刃分切刊刑划列刘则刚创初删判刨利别刮到制刷券刹刺刻刽剁剂剃削前剐剑剔剖剥剧剩剪副割剿劈力劝办功加务劣动助努劫励劲劳势勃勇勉勋勒勘募勤勺勾勿匀包匆匈化北匙匝匠匡匣匪匹区"@
    } else if k == 4 {
        "医匿十千升午卉半华协卑卒卓单卖南博卜卞占卡卢卤卧卫卯印危即却卵卷卸卿厂厄厅历厉压厌厕厘厚原厢厦厨厩去县叁参又叉及友双反发叔取受变叙叛叠口古句另只叫召叭叮可台史右叶号司叹叼吁吃各合吉吊同名后吏吐向吓吕吗"@
    } else if k == 5 {
        "君吝吞吟吠否吧吨吩含听吭吮启吱吴吵吸吹吻吼吾呀呆呈告呐呕员呛呜呢周味呵呸呻呼命咀咆咋和咎咏咐咒咕咖咙咨咬咯咱咳咸咽哀品哄哆哇哈哉响哎哑哗哟哥哦哨哩哪哭哮哲哺哼唁唆唇唉唐唤唬售唯唱唾啃啄商啊啡啤啥啦啪啮"@
    } else if k == 6 {
        "啸啼喀喂善喇喉喊喘喜喝喧喳喷喻嗅嗓嗜嗡嗣嗽嘉嘎嘘嘛嘱嘲嘴嘶嘻嘿噎器噪噬噶嚎嚏嚣嚷嚼囊囚四回因团囤园困囱围固国图圃圆圈土圣在圭地场圾址均坊坍坎坏坐坑块坚坛坝坞坟坠坡坤坦坪坯坷垂垃垄型垒垛垢垣垦垫垮埂埃埋"@
    } else if k == 7 {
        "城埔域埠培基堂堆堑堕堡堤堪堰堵塌塑塔塘塞填境墅墒墓墙增墟墨墩壁壕壤士壬壮声壳壶壹处备复夏夕外多夜够大天太夫央夯失头夷夸夹夺奄奇奈奉奋奎奏契奔奖套奠奢奥女奴奶奸她好如妄妆妇妈妊妒妓妖妙妥妨妮妹妻姆始姐姑"@
    } else if k == 8 {
        "姓委姚姜姥姨姬姻姿威娃娄娇娘娜娟娠娥娩娱娶婆婉婚婪婴婶婿媒媚媳嫁嫂嫉嫌嫡嫩子孔孕字存孙孜孝孟季孤学孩孪孰孵孺孽宁它宅宇守安宋完宏宗官宙定宛宜宝实宠审客宣室宦宪宫宰害宴宵家容宽宾宿寂寄寅密寇富寐寒寓寝寞"@
    } else if k == 9 {
        "察寡寥寨寸对寺寻导寿封射将尉尊小少尔尖尘尚尝尤尧就尸尹尺尼尽尾尿局屁层居屈屉届屋屎屏屑展属屠屡履屯山屹屿岁岂岔岗岛岩岭岳岸岿峙峡峦峨峪峭峰峻崇崎崔崖崩崭嵌巍川州巡巢工左巧巨巩巫差己已巳巴巷巾币市布帅帆"@
    } else if k == 10 {
        "师希帐帕帖帘帚帛帜帝带帧席帮常帽幂幅幌幕幢干平年并幸幻幼幽广庄庆庇床序庐库应底店庙庚府庞废度座庭庶康庸廉廊廓廖延廷建开异弃弄弊式弓引弗弘弛弟张弥弦弧弯弱弹强归当录彝形彤彦彩彪彬彭彰影役彻彼往征径待很徊"@
    } else if k == 11 {
        "律徐徒得徘御循微德徽心必忆忌忍志忘忙忠忧快忱念忻忽忿怀态怂怎怒怔怕怖怜思怠急性怨怪怯总恃恋恍恐恒恕恢恤恨恩恫恬恭息恰恳恶恼恿悄悉悍悔悟悠患悦您悬悯悲悸悼情惊惋惑惕惜惟惠惦惧惨惩惫惭惮惯惰想惶惹惺愁愈愉"@
    } else if k == 12 {
        "意愚感愤愧愿慈慌慎慑慕慢慧慨慰慷憋憎憨憾懂懈懊懒懦戈戊戌戍戎戏成我戒或战戚截戮戳戴户房所扁扇手才扎扑扒打扔托扛扣扦执扩扫扬扭扮扯扰扳扶批扼找承技抄抉把抑抒抓投抖抗折抚抛抠抡抢护报抨披抬抱抵抹押抽抿拂拄"@
    } else if k == 13 {
        "担拆拇拈拉拌拍拎拐拒拓拔拖拘拙招拜拟拢拣拥拦拧拨择括拭拯拱拳拴拷拼拽拾拿持挂指按挎挑挖挚挛挝挞挟挠挡挣挤挥挨挪挫振挺挽捂捅捆捉捌捍捎捏捐捕捞损捡换捣捧据捶捷捻掀掂掇授掉掌掏掐排掖掘掠探掣接控推掩措掳掷"@
    } else if k == 14 {
        "掸掺揉揍描提插揖握揣揩揪揭援揽搀搁搂搅搏搐搓搔搜搞搪搬搭携搽摄摆摇摈摊摔摘摧摩摸摹撂撅撇撑撒撕撞撤撩撬播撮撰撵撼擂擅操擎擒擞擦攀攒攘攫支收改攻放政故效敌敏救敖教敛敝敞敢散敦敬数敲整敷文斋斌斑斗料斜斟斡"@
    } else if k == 15 {
        "斤斥斧斩断斯新方施旁旅旋族旗无既日旦旧旨早旬旭旱时旷旺昂昆昌明昏易昔星映春昧昨昭是昼显晃晋晌晒晓晕晚晤晦晨普景晰晴晶智晾暂暇暑暖暗暮暴曙曝曰曲曳更曹曼曾替最月有朋服朔朗望朝期木未末本札术朱朴朵机朽杀杂"@
    } else if k == 16 {
        "权杆杉李杏材村杖杜束杠条来杨杭杯杰松板极构枉析枕林枚果枝枢枣枪枫枯架枷柄柏某柑柒染柔柜柞柠查柬柯柱柳柴柿栅标栈栋栏树栓栖栗校株样核根格栽桂桃桅框案桌桐桑桓桔档桥桨桩桶梁梅梆梗梢梦梧梨梭梯械梳检棉棋棍棒"@
    } else if k == 17 {
        "棕棘棚棠森棱棵棺椅植椎椒椭椰椽椿楔楚楞楷楼概榆榔榜榨榴榷槐槛槽樊樟模横樱橇橙橡橱檀檄檬欠次欢欣欧欲欺款歇歉歌止正此步武歧歪歹死歼殃殆殉殊残殖殴段殷殿毁毅毋母每毒比毕毖毗毙毛毡毫毯氏民氓气氖氛氟氢氦氧氨"@
    } else if k == 18 {
        "氮氯氰水永汀汁求汇汉汐汕汗汛汝汞江池污汤汪汰汲汹汽汾沁沂沃沈沉沏沙沛沟没沤沥沦沧沪沫沮河沸油治沼沽沾沿泄泅泉泊泌法泛泞泡波泣泥注泪泰泳泵泻泼泽洁洋洒洗洛洞津洪洱洲活洼洽派流浅浆浇浊测济浑浓浙浚浦浩浪浮"@
    } else if k == 19 {
        "浴海浸涂涅消涉涌涎涕涛涝涟涡涣涤润涧涨涩涪涯液涵涸淀淄淆淋淌淑淖淘淡淤淫淬淮深淳混淹添清渊渍渐渔渗渝渠渡渣渤温渭港渴游渺湃湍湖湘湛湾湿溃溅溉源溜溢溪溯溶溺滁滇滋滑滓滔滚滞满滤滥滦滨滩滴漂漆漏漓演漠漫漱"@
    } else if k == 20 {
        "漳漾潍潘潜潞潦潭潮澄澈澎澜澡澳激濒瀑灌火灭灯灰灵灶灸灼灾灿炉炊炎炒炔炕炙炬炭炮炯炳炸点炼炽烁烂烃烈烘烙烛烟烤烦烧烩烫烬热烯烷烹烽焉焊焕焙焚焦焰然煌煎煞煤照煮煽熄熊熏熔熙熟熬燃燎燕燥爆爪爬爱爵父爷爸爹爽"@
    } else if k == 21 {
        "片版牌牙牛牟牡牢牧物牲牵特牺犀犁犊犬犯状犹狂狄狈狐狗狙狞狠狡独狭狮狰狱狸狼猎猖猛猜猩猪猫献猴猾猿獭玄率玉王玖玛玩玫环现玲玻珊珍珐珠班球琅理琉琐琢琳琴琵琶琼瑚瑞瑟瑰瑶璃瓜瓢瓣瓤瓦瓮瓶瓷甄甘甚甜生甥用甩甫"@
    } else if k == 22 {
        "甭田由甲申电男甸画畅界畏畔留畜略畦番畴畸疆疏疑疗疙疚疟疡疤疥疫疮疯疲疵疹疼疽疾病症痈痉痊痒痔痕痘痛痞痢痪痰痴痹瘁瘟瘤瘦瘩瘪瘫瘴瘸癌癣癸登白百皂的皆皇皋皑皖皮皱皿盂盅盆盈益盎盏盐监盒盔盖盗盘盛盟目盯盲直"@
    } else if k == 23 {
        "相盼盾省眉看真眠眨眩眯眶眷眺眼着睁睛睡督睦睫睬睹瞄瞅瞎瞒瞥瞧瞩瞪瞬瞳瞻矗矛矢矣知矩矫短矮石矽矾矿码砂砌砍砒研砖砚砧砰破砷砸砾础硅硒硕硝硫硬确硷硼碉碌碍碎碑碗碘碟碧碰碱碳碴碾磁磅磊磋磐磕磨磷磺礁示礼社祁"@
    } else if k == 24 {
        "祈祖祝神祟祥票祭祷祸禁禄福禹离禽禾秀私秃秆秉秋种科秒秘租秤秦秧秩积称秸移秽稀程稍税稗稚稠稳稻稼稽稿穆穗穴究穷空穿突窃窄窍窑窒窖窗窘窜窝窟窥窿立竖站竞竟章竣童竭端竹竿笆笋笑笔笛符笨第笺笼等筋筏筐筑筒答策"@
    } else if k == 25 {
        "筛筷筹签简箍箔箕算管箩箭箱篆篇篓篙篡篮篱篷簇簧簿籍米类籽粉粒粕粗粘粟粤粥粪粮粱粳粹精糊糕糖糙糜糟糠糯系紊素索紧紫累絮繁纂纠红纤约级纪纫纬纯纱纲纳纵纶纷纸纹纺纽线练组绅细织终绊绍绎经绑绒结绕绘给绚络绝绞"@
    } else if k == 26 {
        "统绢绣绥绦继绩绪续绰绳维绵绷绸综绽绿缀缄缅缆缉缎缓缔缕编缘缚缝缠缨缩缮缴缸缺罐网罕罗罚罢罩罪置署羊羌美羔羚羞羡群羹羽翁翅翌翔翘翟翠翰翱翻翼耀老考者而耍耐耕耗耘耙耪耳耶耸耻耽耿聂聊聋职联聘聚聪肃肄肆肇肉"@
    } else if k == 27 {
        "肋肌肖肘肚肛肝肠股肢肤肥肩肪肮肯育肺肾肿胀胁胃胆背胎胖胚胜胞胡胯胰胳胶胸胺能脂脆脉脊脏脐脑脓脖脚脯脱脸脾腆腊腋腐腑腔腕腥腮腰腹腺腻腾腿膀膊膏膘膛膜膝膨膳臀臂臃臆臣自臭至致臻臼舀舅舆舌舍舒舔舜舞舟航般舰"@
    } else if k == 28 {
        "舱舵舶舷船艇艘良艰色艳艺艾节芋芍芒芜芝芥芦芬芭芯花芳芹芽苇苍苏苑苔苗苛苞苟若苦苫苯英苹茁茂范茄茅茎茧茨茫茬茵茶茸茹荆草荐荒荔荚荡荣荤荧荫药荷莆莉莎莫莱莲获莹莽菇菊菌菏菜菠菩菱菲萄萌萍萎萝萤营萧萨落著葛"@
    } else if k == 29 {
        "葡董葫葬葱葵蒂蒋蒙蒜蒲蒸蓄蓉蓑蓖蓝蓟蓬蔑蔓蔗蔚蔡蔫蔬蔷蔼蔽蕉蕊蕴蕾薄薛薪薯藉藏藐藕藤藩藻蘑蘸虎虏虐虑虚虞虫虱虹虽虾蚀蚁蚂蚊蚌蚕蚜蚤蛀蛆蛇蛊蛋蛔蛙蛛蛤蛮蛰蛹蛾蜀蜂蜒蜕蜗蜘蜜蜡蝇蝉蝎蝗蝴蝶融螟螺蟹蠕蠢血衅"@
    } else if k == 30 {
        "行衍衔街衙衡衣补表衫衬衰衷袁袄袋袍袒袖袜被袭袱裁裂装裔裕裙裤裳裴裸裹褂褐褒褥褪襄襟西要覆见观规觅视览觉角解触言詹誉誊誓警譬计订讣认讥讨让讫训议讯记讲讳讶许讹论讼讽设访诀证评诅识诈诉诊诌词译试诗诚诛话诞"@
    } else if k == 31 {
        "诡询诣该详诧诫诬语误诱诲说诵请诸诺读诽课谁调谅谆谈谊谋谍谎谐谓谗谚谜谢谣谤谦谨谩谬谭谰谱谴谷豁豆豌象豢豪豫豹豺貉貌贝贞负贡财责贤败账货质贩贪贫贬购贮贯贰贱贴贵贷贸费贺贼贾贿赁赂赃资赊赋赌赎赏赐赔赖赘赚"@
    } else if k == 32 {
        "赛赞赠赡赢赣赤赦赫走赴赵赶起趁超越趋趟趣足趴趾跃跋跌跑距跟跨跪路跳践跺踊踌踏踞踢踩踪蹄蹈蹋蹦蹬蹭蹲蹿躁躇身躬躯躲躺车轧轨轩转轮软轰轴轻载轿较辅辆辈辉辊辐辑输辕辖辗辙辛辜辞辟辣辨辩辫辰辱边辽达迁迂迄迅过"@
    } else if k == 33 {
        "迈迎运近返还这进远违连迟迢迪迫迭述迷迸迹追退送适逃逆选逊透逐递途逗通逛逝逞速造逢逮逸逻逼逾遁遂遇遍遏道遗遣遥遭遮遵避邀邑邓邢那邦邪邮邯邱邵邹邻郁郊郎郑郝郡郧部郭郴郸都鄂鄙酉酋酌配酒酗酚酝酞酣酥酪酬酮酱"@
    } else if k == 34 {
        "酵酶酷酸酿醇醉醋醒醚醛采釉释里重野量金釜鉴针钉钎钒钓钙钝钞钟钠钡钢钥钦钧钨钩钮钱钳钵钻钾铀铁铂铃铅铆铜铝铡铣铬铭铰铱铲银铸铺链销锁锄锅锈锋锌锐锑锗错锚锡锣锤锥锦锨锭键锯锰锹锻镀镁镇镊镍镐镑镜镣镭镰镶长"@
    } else if k == 35 {
        "门闪闭问闯闰闲间闷闸闹闺闻闽阀阁阂阅阉阎阐阑阔阜队阮防阳阴阵阶阻阿陀附际陆陇陈陋陌降限陕陛陡院除陨险陪陵陶陷隅隆隋随隐隔隘隙障隧隶难雀雁雄雅集雇雌雍雏雕雨雪零雷雹雾需霄震霉霍霓霖霜霞露霸霹青靖静靛非靠"@
    } else if k == 36 {
        "靡面革靳靴靶鞋鞍鞘鞠鞭韦韧韩韭音韵韶页顶顷项顺须顽顾顿颁颂预颅领颇颈颊颐频颓颖颗题颜额颠颤颧风飘飞食餐饥饭饮饯饰饱饲饵饶饺饼饿馁馅馆馈馋馏馒首香马驭驮驯驰驱驳驴驶驹驻驼驾骂骄骆骇骋验骏骑骗骚骡骤骨骸髓"@
    } else if k == 37 {
        "高鬃鬼魁魂魄魏魔鱼鲁鲍鲜鲤鲸鳃鳖鳞鸟鸡鸣鸥鸦鸭鸯鸳鸵鸽鸿鹃鹅鹊鹏鹤鹰鹿麓麦麻黄黍黎黑黔默鼎鼓鼠鼻齐齿龄龋龙龚龟"@
    } else {
        Seq::empty()
    }
}

/// The code point part `k` starts at.
pub open spec fn gb2312_part_first(k: int) -> int {
    if k == 0 {
        19968
    } else if k == 1 {
        20179
    } else if k == 2 {
        20500
    } else if k == 3 {
        20957
    } else if k == 4 {
        21307
    } else if k == 5 {
        21531
    } else if k == 6 {
        21880
    } else if k == 7 {
        22478
    } else if k == 8 {
        22995
    } else if k == 9 {
        23519
    } else if k == 10 {
        24072
    } else if k == 11 {
        24459
    } else if k == 12 {
        24847
    } else if k == 13 {
        25285
    } else if k == 14 {
        25528
    } else if k == 15 {
        26020
    } else if k == 16 {
        26435
    } else if k == 17 {
        26837
    } else if k == 18 {
        27694
    } else if k == 19 {
        28020
    } else if k == 20 {
        28467
    } else if k == 21 {
        29255
    } else if k == 22 {
        29997
    } else if k == 23 {
        30456
    } else if k == 24 {
        31048
    } else if k == 25 {
        31579
    } else if k == 26 {
        32479
    } else if k == 27 {
        32907
    } else if k == 28 {
        33329
    } else if k == 29 {
        33889
    } else if k == 30 {
        34892
    } else if k == 31 {
        35809
    } else if k == 32 {
        36187
    } else if k == 33 {
        36808
    } else if k == 34 {
        37237
    } else if k == 35 {
        38376
    } else if k == 36 {
        38753
    } else if k == 37 {
        39640
    } else {
        0
    }
}

/// The code point part `k` ends at.
pub open spec fn gb2312_part_last(k: int) -> int {
    if k == 0 {
        20177
    } else if k == 1 {
        20498
    } else if k == 2 {
        20955
    } else if k == 3 {
        21306
    } else if k == 4 {
        21527
    } else if k == 5 {
        21870
    } else if k == 6 {
        22475
    } else if k == 7 {
        22993
    } else if k == 8 {
        23518
    } else if k == 9 {
        24070
    } else if k == 10 {
        24458
    } else if k == 11 {
        24841
    } else if k == 12 {
        25284
    } else if k == 13 {
        25527
    } else if k == 14 {
        26017
    } else if k == 15 {
        26434
    } else if k == 16 {
        26834
    } else if k == 17 {
        27688
    } else if k == 18 {
        28014
    } else if k == 19 {
        28465
    } else if k == 20 {
        29245
    } else if k == 21 {
        29995
    } else if k == 22 {
        30452
    } else if k == 23 {
        31041
    } else if k == 24 {
        31574
    } else if k == 25 {
        32478
    } else if k == 26 {
        32905
    } else if k == 27 {
        33328
    } else if k == 28 {
        33883
    } else if k == 29 {
        34885
    } else if k == 30 {
        35806
    } else if k == 31 {
        36186
    } else if k == 32 {
        36807
    } else if k == 33 {
        37233
    } else if k == 34 {
        38271
    } else if k == 35 {
        38752
    } else if k == 36 {
        39635
    } else if k == 37 {
        40863
    } else {
        0
    }
}

/// The first `n` parts of the GB2312 level-1 hanzi, one after the other.
pub open spec fn gb2312_upto(n: int) -> Seq<char>
    decreases n,
{
    if n <= 0 {
        Seq::empty()
    } else {
        gb2312_upto(n - 1) + gb2312_part(n - 1)
    }
}

/// The 3755 common hanzi of GB2312 level 1 (rows 16 to 55), in ascending code-point order.
pub open spec fn gb2312_level1() -> Seq<char> {
    gb2312_upto(gb2312_parts())
}

/// Part `k` of the GB2312 level-1 hanzi.
fn gb2312_part_str(k: usize) -> (r: &'static str)
    requires
        k < gb2312_parts(),
    ensures
        r@ == gb2312_part(k as int),
{
    match k {
        0 => "一丁七万丈三上下不与丑专且世丘丙业丛东丝丢两严丧个丫中丰串临丸丹为主丽举乃久么义之乌乍乎乏乐乒乓乔乖乘乙九乞也习乡书买乱乳乾了予争事二于亏云互五井亚些亡亢交亥亦产亨亩享京亭亮亲人亿什仁仅仆仇今介仍从仑",
        1 => "仓仔仕他仗付仙仟代令以仪们仰仲件价任份仿企伊伍伎伏伐休众优伙会伞伟传伤伦伪伯估伴伶伸伺似佃但位低住佐佑体何余佛作你佣佩佬佯佰佳使侄侈例侍侗供依侠侣侥侦侧侨侩侮侯侵便促俄俊俏俐俗俘保俞信俩俭修俯俱俺倍倒",
        2 => "倔倘候倚借倡倦倪债值倾假偏做停健偶偷偿傀傅傈傍傣储催傲傻像僚僧僳僵僻儒儡儿允元兄充兆先光克免兑兔党兜兢入全八公六兰共关兴兵其具典兹养兼兽冀内冈冉册再冒冕冗写军农冠冤冬冯冰冲决况冶冷冻净凄准凉凋凌减凑凛",
        3 => "凝几凡凤凭凯凰凳凶凸凹出击函凿刀刁刃分切刊刑划列刘则刚创初删判刨利别刮到制刷券刹刺刻刽剁剂剃削前剐剑剔剖剥剧剩剪副割剿劈力劝办功加务劣动助努劫励劲劳势勃勇勉勋勒勘募勤勺勾勿匀包匆匈化北匙匝匠匡匣匪匹区",
        4 => "医匿十千升午卉半华协卑卒卓单卖南博卜卞占卡卢卤卧卫卯印危即却卵卷卸卿厂厄厅历厉压厌厕厘厚原厢厦厨厩去县叁参又叉及友双反发叔取受变叙叛叠口古句另只叫召叭叮可台史右叶号司叹叼吁吃各合吉吊同名后吏吐向吓吕吗",
        5 => "君吝吞吟吠否吧吨吩含听吭吮启吱吴吵吸吹吻吼吾呀呆呈告呐呕员呛呜呢周味呵呸呻呼命咀咆咋和咎咏咐咒咕咖咙咨咬咯咱咳咸咽哀品哄哆哇哈哉响哎哑哗哟哥哦哨哩哪哭哮哲哺哼唁唆唇唉唐唤唬售唯唱唾啃啄商啊啡啤啥啦啪啮",
        6 => "啸啼喀喂善喇喉喊喘喜喝喧喳喷喻嗅嗓嗜嗡嗣嗽嘉嘎嘘嘛嘱嘲嘴嘶嘻嘿噎器噪噬噶嚎嚏嚣嚷嚼囊囚四回因团囤园困囱围固国图圃圆圈土圣在圭地场圾址均坊坍坎坏坐坑块坚坛坝坞坟坠坡坤坦坪坯坷垂垃垄型垒垛垢垣垦垫垮埂埃埋",
        7 => "城埔域埠培基堂堆堑堕堡堤堪堰堵塌塑塔塘塞填境墅墒墓墙增墟墨墩壁壕壤士壬壮声壳壶壹处备复夏夕外多夜够大天太夫央夯失头夷夸夹夺奄奇奈奉奋奎奏契奔奖套奠奢奥女奴奶奸她好如妄妆妇妈妊妒妓妖妙妥妨妮妹妻姆始姐姑",
        8 => "姓委姚姜姥姨姬姻姿威娃娄娇娘娜娟娠娥娩娱娶婆婉婚婪婴婶婿媒媚媳嫁嫂嫉嫌嫡嫩子孔孕字存孙孜孝孟季孤学孩孪孰孵孺孽宁它宅宇守安宋完宏宗官宙定宛宜宝实宠审客宣室宦宪宫宰害宴宵家容宽宾宿寂寄寅密寇富寐寒寓寝寞",
        9 => "察寡寥寨寸对寺寻导寿封射将尉尊小少尔尖尘尚尝尤尧就尸尹尺尼尽尾尿局屁层居屈屉届屋屎屏屑展属屠屡履屯山屹屿岁岂岔岗岛岩岭岳岸岿峙峡峦峨峪峭峰峻崇崎崔崖崩崭嵌巍川州巡巢工左巧巨巩巫差己已巳巴巷巾币市布帅帆",
        10 => "师希帐帕帖帘帚帛帜帝带帧席帮常帽幂幅幌幕幢干平年并幸幻幼幽广庄庆庇床序庐库应底店庙庚府庞废度座庭庶康庸廉廊廓廖延廷建开异弃弄弊式弓引弗弘弛弟张弥弦弧弯弱弹强归当录彝形彤彦彩彪彬彭彰影役彻彼往征径待很徊",
        11 => "律徐徒得徘御循微德徽心必忆忌忍志忘忙忠忧快忱念忻忽忿怀态怂怎怒怔怕怖怜思怠急性怨怪怯总恃恋恍恐恒恕恢恤恨恩恫恬恭息恰恳恶恼恿悄悉悍悔悟悠患悦您悬悯悲悸悼情惊惋惑惕惜惟惠惦惧惨惩惫惭惮惯惰想惶惹惺愁愈愉",
        12 => "意愚感愤愧愿慈慌慎慑慕慢慧慨慰慷憋憎憨憾懂懈懊懒懦戈戊戌戍戎戏成我戒或战戚截戮戳戴户房所扁扇手才扎扑扒打扔托扛扣扦执扩扫扬扭扮扯扰扳扶批扼找承技抄抉把抑抒抓投抖抗折抚抛抠抡抢护报抨披抬抱抵抹押抽抿拂拄",
        13 => "担拆拇拈拉拌拍拎拐拒拓拔拖拘拙招拜拟拢拣拥拦拧拨择括拭拯拱拳拴拷拼拽拾拿持挂指按挎挑挖挚挛挝挞挟挠挡挣挤挥挨挪挫振挺挽捂捅捆捉捌捍捎捏捐捕捞损捡换捣捧据捶捷捻掀掂掇授掉掌掏掐排掖掘掠探掣接控推掩措掳掷",
        14 => "掸掺揉揍描提插揖握揣揩揪揭援揽搀搁搂搅搏搐搓搔搜搞搪搬搭携搽摄摆摇摈摊摔摘摧摩摸摹撂撅撇撑撒撕撞撤撩撬播撮撰撵撼擂擅操擎擒擞擦攀攒攘攫支收改攻放政故效敌敏救敖教敛敝敞敢散敦敬数敲整敷文斋斌斑斗料斜斟斡",
        15 => "斤斥斧斩断斯新方施旁旅旋族旗无既日旦旧旨早旬旭旱时旷旺昂昆昌明昏易昔星映春昧昨昭是昼显晃晋晌晒晓晕晚晤晦晨普景晰晴晶智晾暂暇暑暖暗暮暴曙曝曰曲曳更曹曼曾替最月有朋服朔朗望朝期木未末本札术朱朴朵机朽杀杂",
        16 => "权杆杉李杏材村杖杜束杠条来杨杭杯杰松板极构枉析枕林枚果枝枢枣枪枫枯架枷柄柏某柑柒染柔柜柞柠查柬柯柱柳柴柿栅标栈栋栏树栓栖栗校株样核根格栽桂桃桅框案桌桐桑桓桔档桥桨桩桶梁梅梆梗梢梦梧梨梭梯械梳检棉棋棍棒",
        17 => "棕棘棚棠森棱棵棺椅植椎椒椭椰椽椿楔楚楞楷楼概榆榔榜榨榴榷槐槛槽樊樟模横樱橇橙橡橱檀檄檬欠次欢欣欧欲欺款歇歉歌止正此步武歧歪歹死歼殃殆殉殊残殖殴段殷殿毁毅毋母每毒比毕毖毗毙毛毡毫毯氏民氓气氖氛氟氢氦氧氨",
        18 => "氮氯氰水永汀汁求汇汉汐汕汗汛汝汞江池污汤汪汰汲汹汽汾沁沂沃沈沉沏沙沛沟没沤沥沦沧沪沫沮河沸油治沼沽沾沿泄泅泉泊泌法泛泞泡波泣泥注泪泰泳泵泻泼泽洁洋洒洗洛洞津洪洱洲活洼洽派流浅浆浇浊测济浑浓浙浚浦浩浪浮",
        19 => "浴海浸涂涅消涉涌涎涕涛涝涟涡涣涤润涧涨涩涪涯液涵涸淀淄淆淋淌淑淖淘淡淤淫淬淮深淳混淹添清渊渍渐渔渗渝渠渡渣渤温渭港渴游渺湃湍湖湘湛湾湿溃溅溉源溜溢溪溯溶溺滁滇滋滑滓滔滚滞满滤滥滦滨滩滴漂漆漏漓演漠漫漱",
        20 => "漳漾潍潘潜潞潦潭潮澄澈澎澜澡澳激濒瀑灌火灭灯灰灵灶灸灼灾灿炉炊炎炒炔炕炙炬炭炮炯炳炸点炼炽烁烂烃烈烘烙烛烟烤烦烧烩烫烬热烯烷烹烽焉焊焕焙焚焦焰然煌煎煞煤照煮煽熄熊熏熔熙熟熬燃燎燕燥爆爪爬爱爵父爷爸爹爽",
        21 => "片版牌牙牛牟牡牢牧物牲牵特牺犀犁犊犬犯状犹狂狄狈狐狗狙狞狠狡独狭狮狰狱狸狼猎猖猛猜猩猪猫献猴猾猿獭玄率玉王玖玛玩玫环现玲玻珊珍珐珠班球琅理琉琐琢琳琴琵琶琼瑚瑞瑟瑰瑶璃瓜瓢瓣瓤瓦瓮瓶瓷甄甘甚甜生甥用甩甫",
        22 => "甭田由甲申电男甸画畅界畏畔留畜略畦番畴畸疆疏疑疗疙疚疟疡疤疥疫疮疯疲疵疹疼疽疾病症痈痉痊痒痔痕痘痛痞痢痪痰痴痹瘁瘟瘤瘦瘩瘪瘫瘴瘸癌癣癸登白百皂的皆皇皋皑皖皮皱皿盂盅盆盈益盎盏盐监盒盔盖盗盘盛盟目盯盲直",
        23 => "相盼盾省眉看真眠眨眩眯眶眷眺眼着睁睛睡督睦睫睬睹瞄瞅瞎瞒瞥瞧瞩瞪瞬瞳瞻矗矛矢矣知矩矫短矮石矽矾矿码砂砌砍砒研砖砚砧砰破砷砸砾础硅硒硕硝硫硬确硷硼碉碌碍碎碑碗碘碟碧碰碱碳碴碾磁磅磊磋磐磕磨磷磺礁示礼社祁",
        24 => "祈祖祝神祟祥票祭祷祸禁禄福禹离禽禾秀私秃秆秉秋种科秒秘租秤秦秧秩积称秸移秽稀程稍税稗稚稠稳稻稼稽稿穆穗穴究穷空穿突窃窄窍窑窒窖窗窘窜窝窟窥窿立竖站竞竟章竣童竭端竹竿笆笋笑笔笛符笨第笺笼等筋筏筐筑筒答策",
        25 => "筛筷筹签简箍箔箕算管箩箭箱篆篇篓篙篡篮篱篷簇簧簿籍米类籽粉粒粕粗粘粟粤粥粪粮粱粳粹精糊糕糖糙糜糟糠糯系紊素索紧紫累絮繁纂纠红纤约级纪纫纬纯纱纲纳纵纶纷纸纹纺纽线练组绅细织终绊绍绎经绑绒结绕绘给绚络绝绞",
        26 => "统绢绣绥绦继绩绪续绰绳维绵绷绸综绽绿缀缄缅缆缉缎缓缔缕编缘缚缝缠缨缩缮缴缸缺罐网罕罗罚罢罩罪置署羊羌美羔羚羞羡群羹羽翁翅翌翔翘翟翠翰翱翻翼耀老考者而耍耐耕耗耘耙耪耳耶耸耻耽耿聂聊聋职联聘聚聪肃肄肆肇肉",
        27 => "肋肌肖肘肚肛肝肠股肢肤肥肩肪肮肯育肺肾肿胀胁胃胆背胎胖胚胜胞胡胯胰胳胶胸胺能脂脆脉脊脏脐脑脓脖脚脯脱脸脾腆腊腋腐腑腔腕腥腮腰腹腺腻腾腿膀膊膏膘膛膜膝膨膳臀臂臃臆臣自臭至致臻臼舀舅舆舌舍舒舔舜舞舟航般舰",
        28 => "舱舵舶舷船艇艘良艰色艳艺艾节芋芍芒芜芝芥芦芬芭芯花芳芹芽苇苍苏苑苔苗苛苞苟若苦苫苯英苹茁茂范茄茅茎茧茨茫茬茵茶茸茹荆草荐荒荔荚荡荣荤荧荫药荷莆莉莎莫莱莲获莹莽菇菊菌菏菜菠菩菱菲萄萌萍萎萝萤营萧萨落著葛",
        29 => "葡董葫葬葱葵蒂蒋蒙蒜蒲蒸蓄蓉蓑蓖蓝蓟蓬蔑蔓蔗蔚蔡蔫蔬蔷蔼蔽蕉蕊蕴蕾薄薛薪薯藉藏藐藕藤藩藻蘑蘸虎虏虐虑虚虞虫虱虹虽虾蚀蚁蚂蚊蚌蚕蚜蚤蛀蛆蛇蛊蛋蛔蛙蛛蛤蛮蛰蛹蛾蜀蜂蜒蜕蜗蜘蜜蜡蝇蝉蝎蝗蝴蝶融螟螺蟹蠕蠢血衅",
        30 => "行衍衔街衙衡衣补表衫衬衰衷袁袄袋袍袒袖袜被袭袱裁裂装裔裕裙裤裳裴裸裹褂褐褒褥褪襄襟西要覆见观规觅视览觉角解触言詹誉誊誓警譬计订讣认讥讨让讫训议讯记讲讳讶许讹论讼讽设访诀证评诅识诈诉诊诌词译试诗诚诛话诞",
        31 => "诡询诣该详诧诫诬语误诱诲说诵请诸诺读诽课谁调谅谆谈谊谋谍谎谐谓谗谚谜谢谣谤谦谨谩谬谭谰谱谴谷豁豆豌象豢豪豫豹豺貉貌贝贞负贡财责贤败账货质贩贪贫贬购贮贯贰贱贴贵贷贸费贺贼贾贿赁赂赃资赊赋赌赎赏赐赔赖赘赚",
        32 => "赛赞赠赡赢赣赤赦赫走赴赵赶起趁超越趋趟趣足趴趾跃跋跌跑距跟跨跪路跳践跺踊踌踏踞踢踩踪蹄蹈蹋蹦蹬蹭蹲蹿躁躇身躬躯躲躺车轧轨轩转轮软轰轴轻载轿较辅辆辈辉辊辐辑输辕辖辗辙辛辜辞辟辣辨辩辫辰辱边辽达迁迂迄迅过",
        33 => "迈迎运近返还这进远违连迟迢迪迫迭述迷迸迹追退送适逃逆选逊透逐递途逗通逛逝逞速造逢逮逸逻逼逾遁遂遇遍遏道遗遣遥遭遮遵避邀邑邓邢那邦邪邮邯邱邵邹邻郁郊郎郑郝郡郧部郭郴郸都鄂鄙酉酋酌配酒酗酚酝酞酣酥酪酬酮酱",
        34 => "酵酶酷酸酿醇醉醋醒醚醛采釉释里重野量金釜鉴针钉钎钒钓钙钝钞钟钠钡钢钥钦钧钨钩钮钱钳钵钻钾铀铁铂铃铅铆铜铝铡铣铬铭铰铱铲银铸铺链销锁锄锅锈锋锌锐锑锗错锚锡锣锤锥锦锨锭键锯锰锹锻镀镁镇镊镍镐镑镜镣镭镰镶长",
        35 => "门闪闭问闯闰闲间闷闸闹闺闻闽阀阁阂阅阉阎阐阑阔阜队阮防阳阴阵阶阻阿陀附际陆陇陈陋陌降限陕陛陡院除陨险陪陵陶陷隅隆隋随隐隔隘隙障隧隶难雀雁雄雅集雇雌雍雏雕雨雪零雷雹雾需霄震霉霍霓霖霜霞露霸霹青靖静靛非靠",
        36 => "靡面革靳靴靶鞋鞍鞘鞠鞭韦韧韩韭音韵韶页顶顷项顺须顽顾顿颁颂预颅领颇颈颊颐频颓颖颗题颜额颠颤颧风飘飞食餐饥饭饮饯饰饱饲饵饶饺饼饿馁馅馆馈馋馏馒首香马驭驮驯驰驱驳驴驶驹驻驼驾骂骄骆骇骋验骏骑骗骚骡骤骨骸髓",
        _ => "高鬃鬼魁魂魄魏魔鱼鲁鲍鲜鲤鲸鳃鳖鳞鸟鸡鸣鸥鸦鸭鸯鸳鸵鸽鸿鹃鹅鹊鹏鹤鹰鹿麓麦麻黄黍黎黑黔默鼎鼓鼠鼻齐齿龄龋龙龚龟",
    }
}

/// The characters of each preset.
pub open spec fn preset_spec(preset: CharsetPreset) -> Seq<char> {
    match preset {
        CharsetPreset::Ascii => ascii_printable(),
        CharsetPreset::Numbers => "0123456789+-x/%.,"@,
        CharsetPreset::Latin1 => latin1_printable(),
        CharsetPreset::CommonPunct => " .,!?;:()[]{}<>+-*/=_%$#@&\"'`^~|\\"@,
        CharsetPreset::CommonZh => gb2312_level1(),
        CharsetPreset::Custom => Seq::empty(),
    }
}

/// Pushes the characters with codes `lo..=hi` (all below 256).
fn push_range(out: &mut Vec<char>, lo: u8, hi: u8)
    requires
        lo <= hi,
    ensures
        final(out)@ == old(out)@ + Seq::new((hi - lo + 1) as nat, |i: int| (lo + i) as char),
{
    let ghost start = out@;
    let mut c: u16 = lo as u16;
    while c <= hi as u16
        invariant
            lo <= c <= hi + 1,
            out@ == start + Seq::new((c - lo) as nat, |i: int| (lo + i) as char),
        decreases hi + 1 - c,
    {
        let b: u8 = c as u8;
        out.push(b as char);
        proof {
            assert(out@ =~= start + Seq::new((c + 1 - lo) as nat, |i: int| (lo + i) as char));
        }
        c = c + 1;
    }
}

/// The characters of a preset character set.
pub fn preset_chars(preset: CharsetPreset) -> (r: String)
    ensures
        r@ == preset_spec(preset),
{
    let mut v: Vec<char> = Vec::new();
    match preset {
        CharsetPreset::Ascii => {
            push_range(&mut v, 32, 126);
            assert(v@ =~= ascii_printable());
        },
        CharsetPreset::Numbers => {
            push_str(&mut v, "0123456789+-x/%.,");
            assert(v@ =~= "0123456789+-x/%.,"@);
        },
        CharsetPreset::Latin1 => {
            push_range(&mut v, 32, 126);
            push_range(&mut v, 160, 255);
            assert(v@ =~= latin1_printable());
        },
        CharsetPreset::CommonPunct => {
            push_str(&mut v, " .,!?;:()[]{}<>+-*/=_%$#@&\"'`^~|\\");
            assert(v@ =~= " .,!?;:()[]{}<>+-*/=_%$#@&\"'`^~|\\"@);
        },
        CharsetPreset::CommonZh => {
            let mut k: usize = 0;
            while k < 38
                invariant
                    k <= gb2312_parts(),
                    v@ == gb2312_upto(k as int),
                decreases 38 - k,
            {
                push_str(&mut v, gb2312_part_str(k));
                k = k + 1;
            }
        },
        CharsetPreset::Custom => {},
    }
    chars_to_string(&v)
}

/// Line breaks and tabs are never glyphs.
pub open spec fn is_layout_char(c: char) -> bool {
    c == '\n' || c == '\r' || c == '\t'
}

/// The characters of `s` in first-seen order, each once, without line breaks and tabs.
pub open spec fn first_seen(s: Seq<char>) -> Seq<char>
    decreases s.len(),
{
    if s.len() == 0 {
        Seq::empty()
    } else {
        let u = first_seen(s.drop_last());
        let c = s.last();
        if is_layout_char(c) || u.contains(c) {
            u
        } else {
            u.push(c)
        }
    }
}

/// The character set a text needs: its characters in first-seen order, each
/// once, with line breaks and tabs left out and a space always included.
pub open spec fn extract_spec(input: Seq<char>) -> Seq<char> {
    first_seen(input.push(' '))
}

/// What `first_seen` keeps: no line break or tab, nothing twice, and exactly the
/// other characters of `s`.
proof fn lemma_first_seen(s: Seq<char>)
    ensures
        forall|i: int| 0 <= i < first_seen(s).len() ==> !is_layout_char(#[trigger] first_seen(s)[i]),
        forall|i: int, j: int|
            0 <= i < j < first_seen(s).len() ==> #[trigger] first_seen(s)[i] != #[trigger] first_seen(s)[j],
        forall|c: char| #[trigger] first_seen(s).contains(c) <==> (s.contains(c) && !is_layout_char(c)),
    decreases s.len(),
{
    if s.len() > 0 {
        let p = s.drop_last();
        let c = s.last();
        let u = first_seen(p);
        lemma_first_seen(p);
        assert forall|d: char| #[trigger] s.contains(d) <==> (p.contains(d) || d == c) by {
            if s.contains(d) {
                let k = choose|k: int| 0 <= k < s.len() && s[k] == d;
                if k < s.len() - 1 {
                    assert(p[k] == d);
                }
            }
            if p.contains(d) {
                let k = choose|k: int| 0 <= k < p.len() && p[k] == d;
                assert(s[k] == d);
            }
            if d == c {
                assert(s[s.len() - 1] == d);
            }
        }
        if is_layout_char(c) || u.contains(c) {
            assert(first_seen(s) == u);
        } else {
            let v = u.push(c);
            assert(first_seen(s) == v);
            assert forall|d: char| #[trigger] v.contains(d) <==> (u.contains(d) || d == c) by {
                if v.contains(d) {
                    let k = choose|k: int| 0 <= k < v.len() && v[k] == d;
                    if k < u.len() {
                        assert(u[k] == d);
                    }
                }
                if u.contains(d) {
                    let k = choose|k: int| 0 <= k < u.len() && u[k] == d;
                    assert(v[k] == d);
                }
                if d == c {
                    assert(v[u.len() as int] == d);
                }
            }
            assert forall|i: int, j: int| 0 <= i < j < v.len() implies #[trigger] v[i] != #[trigger] v[j] by {
                if j == u.len() {
                    assert(u[i] == v[i]);
                    assert(u.contains(v[i]));
                }
            }
        }
    }
}

/// A sequence without line breaks, tabs or repeats is its own first-seen set.
proof fn lemma_first_seen_fixed(s: Seq<char>)
    requires
        forall|i: int| 0 <= i < s.len() ==> !is_layout_char(#[trigger] s[i]),
        forall|i: int, j: int| 0 <= i < j < s.len() ==> #[trigger] s[i] != #[trigger] s[j],
    ensures
        first_seen(s) == s,
    decreases s.len(),
{
    if s.len() > 0 {
        let p = s.drop_last();
        assert forall|i: int, j: int| 0 <= i < j < p.len() implies #[trigger] p[i] != #[trigger] p[j] by {
            assert(s[i] == p[i] && s[j] == p[j]);
        }
        lemma_first_seen_fixed(p);
        if p.contains(s.last()) {
            let k = choose|k: int| 0 <= k < p.len() && p[k] == s.last();
            assert(s[k] == s[s.len() - 1]);
        }
        assert(p.push(s.last()) =~= s);
    }
}

/// Law: the character set of a text holds a space, no line break or tab, no
/// character twice, every other character of the text and nothing else.
pub proof fn lemma_extract_set(input: Seq<char>)
    ensures
        extract_spec(input).contains(' '),
        forall|i: int| 0 <= i < extract_spec(input).len() ==> !is_layout_char(#[trigger] extract_spec(input)[i]),
        forall|i: int, j: int|
            0 <= i < j < extract_spec(input).len() ==> #[trigger] extract_spec(input)[i]
                != #[trigger] extract_spec(input)[j],
        forall|c: char|
            #[trigger] extract_spec(input).contains(c) <==> (c == ' ' || (input.contains(c) && !is_layout_char(c))),
{
    let t = input.push(' ');
    lemma_first_seen(t);
    assert(t[input.len() as int] == ' ');
    assert forall|c: char| #[trigger] t.contains(c) <==> (input.contains(c) || c == ' ') by {
        if t.contains(c) {
            let k = choose|k: int| 0 <= k < t.len() && t[k] == c;
            if k < input.len() {
                assert(input[k] == c);
            }
        }
        if input.contains(c) {
            let k = choose|k: int| 0 <= k < input.len() && input[k] == c;
            assert(t[k] == c);
        }
    }
    assert(t.contains(' '));
}

/// Law: the character set of a character set is itself; extracting twice changes nothing.
pub proof fn lemma_extract_idempotent(input: Seq<char>)
    ensures
        extract_spec(extract_spec(input)) == extract_spec(input),
{
    let e = extract_spec(input);
    lemma_extract_set(input);
    lemma_first_seen_fixed(e);
    assert(e.push(' ').drop_last() =~= e);
    assert(e.push(' ').last() == ' ');
}

/// Deduplicate while preserving first-seen order. Always includes space.
pub fn extract_chars(input: &str) -> (r: String)
    ensures
        r@ == extract_spec(input@),
{
    let mut src = str_chars(input);
    src.push(' ');
    let ghost s = src@;
    let mut out: Vec<char> = Vec::new();
    let mut k: usize = 0;
    while k < src.len()
        invariant
            s == src@,
            k <= src.len(),
            out@ == first_seen(s.take(k as int)),
        decreases src.len() - k,
    {
        let ch = src[k];
        proof {
            assert(s.take(k + 1).drop_last() =~= s.take(k as int));
            assert(s.take(k + 1).last() == ch);
        }
        if !(ch == '\n' || ch == '\r' || ch == '\t') && !vec_contains(&out, ch) {
            out.push(ch);
        }
        k = k + 1;
    }
    proof {
        assert(s.take(s.len() as int) =~= s);
    }
    chars_to_string(&out)
}

/// Code points of a character sequence, as sort keys.
pub open spec fn code_keys(cs: Seq<char>) -> Seq<int> {
    cs.map_values(|c: char| c as u32 as int)
}

/// The characters a font is generated for: the character set of `chars`,
/// in ascending code-point order.
pub open spec fn glyph_chars_spec(chars: Seq<char>) -> Seq<char> {
    let u = extract_spec(chars);
    stable_order_of(code_keys(u)).map_values(|k: usize| u[k as int])
}

/// The character set of `chars`, sorted by code point.
pub fn glyph_chars(chars: &str) -> (r: Vec<char>)
    ensures
        r@ == glyph_chars_spec(chars@),
        forall|i: int, j: int| 0 <= i < j < r@.len() ==> (r@[i] as u32) < (r@[j] as u32),
        forall|c: char| #[trigger] r@.contains(c) <==> extract_spec(chars@).contains(c),
{
    let set = extract_chars(chars);
    let u = str_chars(set.as_str());
    let mut keys: Vec<i64> = Vec::new();
    let mut k: usize = 0;
    while k < u.len()
        invariant
            k <= u.len(),
            keys@.len() == k,
            forall|j: int| 0 <= j < k ==> #[trigger] keys@[j] == u@[j] as u32 as int,
        decreases u.len() - k,
    {
        let cp: u32 = u[k] as u32;
        keys.push(cp as i64);
        k = k + 1;
    }
    assert(int_keys(keys@) =~= code_keys(u@));
    let order = stable_order(&keys);
    let mut out: Vec<char> = Vec::new();
    let mut t: usize = 0;
    while t < order.len()
        invariant
            t <= order.len(),
            is_stable_order(code_keys(u@), order@),
            order@.len() == u@.len(),
            out@ == order@.take(t as int).map_values(|k: usize| u@[k as int]),
        decreases order.len() - t,
    {
        assert(order@[t as int] < u@.len());
        out.push(u[order[t]]);
        proof {
            assert(order@.take(t + 1) =~= order@.take(t as int).push(order@[t as int]));
            assert(out@ =~= order@.take(t + 1).map_values(|k: usize| u@[k as int]));
        }
        t = t + 1;
    }
    assert(order@.take(order@.len() as int) =~= order@);
    proof {
        let keys = code_keys(u@);
        lemma_extract_set(chars@);
        assert forall|i: int, j: int| 0 <= i < j < out@.len() implies (out@[i] as u32) < (out@[j] as u32) by {
            let (oi, oj) = (order@[i] as int, order@[j] as int);
            assert(key_before(keys, oi, oj));
            if keys[oi] == keys[oj] {
                vstd::utf8::char_u32_cast(u@[oi], u@[oi] as u32);
                vstd::utf8::char_u32_cast(u@[oj], u@[oj] as u32);
                assert(u@[oi] == u@[oj]);
            }
        }
        assert forall|c: char| #[trigger] out@.contains(c) <==> u@.contains(c) by {
            if out@.contains(c) {
                let k = choose|k: int| 0 <= k < out@.len() && out@[k] == c;
                assert(u@[order@[k] as int] == c);
            }
            if u@.contains(c) {
                let v = choose|v: int| 0 <= v < u@.len() && u@[v] == c;
                lemma_stable_order_covers(keys, order@, v);
                let k = choose|k: int| 0 <= k < order@.len() && order@[k] == v as usize;
                assert(out@[k] == c);
            }
        }
    }
    out
}



/// Each preset holds no line break or tab and no character twice.
proof fn lemma_preset_distinct(p: CharsetPreset)
    ensures
        forall|i: int| 0 <= i < preset_spec(p).len() ==> !is_layout_char(#[trigger] preset_spec(p)[i]),
        forall|i: int, j: int|
            0 <= i < j < preset_spec(p).len() ==> #[trigger] preset_spec(p)[i] != #[trigger] preset_spec(p)[j],
{
    let s = preset_spec(p);
    match p {
        CharsetPreset::Numbers => {
            reveal_strlit("0123456789+-x/%.,");
        },
        CharsetPreset::CommonPunct => {
            reveal_strlit(" .,!?;:()[]{}<>+-*/=_%$#@&\"'`^~|\\");
        },
        CharsetPreset::Latin1 => {
            assert forall|i: int, j: int| 0 <= i < j < s.len() implies s[i] != s[j] by {
                if j >= 95 && i < 95 {
                    assert(s[i] == (32 + i) as char);
                    assert(s[j] == (160 + (j - 95)) as char);
                }
            }
        },
        CharsetPreset::CommonZh => {
            lemma_gb2312_distinct();
        },
        _ => {},
    }
}

/// Part `k` of the GB2312 level-1 hanzi holds no character twice, and its code points
/// run from its first to its last.
#[verifier::spinoff_prover]
#[verifier::rlimit(100)]
proof fn lemma_gb2312_part(k: int)
    requires
        0 <= k < gb2312_parts(),
    ensures
        forall|i: int|
            0 <= i < gb2312_part(k).len() ==> gb2312_part_first(k) <= (#[trigger] gb2312_part(k)[i]) as u32
                <= gb2312_part_last(k),
        forall|i: int, j: int|
            0 <= i < j < gb2312_part(k).len() ==> #[trigger] gb2312_part(k)[i] != #[trigger] gb2312_part(k)[j],
{
    if k == 0 {
        reveal_strlit("一丁七万丈三上下不与丑专且世丘丙业丛东丝丢两严丧个丫中丰串临丸丹为主丽举乃久么义之乌乍乎乏乐乒乓乔乖乘乙九乞也习乡书买乱乳乾了予争事二于亏云互五井亚些亡亢交亥亦产亨亩享京亭亮亲人亿什仁仅仆仇今介仍从仑");
    } else if k == 1 {
        reveal_strlit("仓仔仕他仗付仙仟代令以仪们仰仲件价任份仿企伊伍伎伏伐休众优伙会伞伟传伤伦伪伯估伴伶伸伺似佃但位低住佐佑体何余佛作你佣佩佬佯佰佳使侄侈例侍侗供依侠侣侥侦侧侨侩侮侯侵便促俄俊俏俐俗俘保俞信俩俭修俯俱俺倍倒");
    } else if k == 2 {
        reveal_strlit("倔倘候倚借倡倦倪债值倾假偏做停健偶偷偿傀傅傈傍傣储催傲傻像僚僧僳僵僻儒儡儿允元兄充兆先光克免兑兔党兜兢入全八公六兰共关兴兵其具典兹养兼兽冀内冈冉册再冒冕冗写军农冠冤冬冯冰冲决况冶冷冻净凄准凉凋凌减凑凛");
    } else if k == 3 {
        reveal_strlit("凝几凡凤凭凯凰凳凶凸凹出击函凿刀刁刃分切刊刑划列刘则刚创初删判刨利别刮到制刷券刹刺刻刽剁剂剃削前剐剑剔剖剥剧剩剪副割剿劈力劝办功加务劣动助努劫励劲劳势勃勇勉勋勒勘募勤勺勾勿匀包匆匈化北匙匝匠匡匣匪匹区");
    } else if k == 4 {
        reveal_strlit("医匿十千升午卉半华协卑卒卓单卖南博卜卞占卡卢卤卧卫卯印危即却卵卷卸卿厂厄厅历厉压厌厕厘厚原厢厦厨厩去县叁参又叉及友双反发叔取受变叙叛叠口古句另只叫召叭叮可台史右叶号司叹叼吁吃各合吉吊同名后吏吐向吓吕吗");
    } else if k == 5 {
        reveal_strlit("君吝吞吟吠否吧吨吩含听吭吮启吱吴吵吸吹吻吼吾呀呆呈告呐呕员呛呜呢周味呵呸呻呼命咀咆咋和咎咏咐咒咕咖咙咨咬咯咱咳咸咽哀品哄哆哇哈哉响哎哑哗哟哥哦哨哩哪哭哮哲哺哼唁唆唇唉唐唤唬售唯唱唾啃啄商啊啡啤啥啦啪啮");
    } else if k == 6 {
        reveal_strlit("啸啼喀喂善喇喉喊喘喜喝喧喳喷喻嗅嗓嗜嗡嗣嗽嘉嘎嘘嘛嘱嘲嘴嘶嘻嘿噎器噪噬噶嚎嚏嚣嚷嚼囊囚四回因团囤园困囱围固国图圃圆圈土圣在圭地场圾址均坊坍坎坏坐坑块坚坛坝坞坟坠坡坤坦坪坯坷垂垃垄型垒垛垢垣垦垫垮埂埃埋");
    } else if k == 7 {
        reveal_strlit("城埔域埠培基堂堆堑堕堡堤堪堰堵塌塑塔塘塞填境墅墒墓墙增墟墨墩壁壕壤士壬壮声壳壶壹处备复夏夕外多夜够大天太夫央夯失头夷夸夹夺奄奇奈奉奋奎奏契奔奖套奠奢奥女奴奶奸她好如妄妆妇妈妊妒妓妖妙妥妨妮妹妻姆始姐姑");
    } else if k == 8 {
        reveal_strlit("姓委姚姜姥姨姬姻姿威娃娄娇娘娜娟娠娥娩娱娶婆婉婚婪婴婶婿媒媚媳嫁嫂嫉嫌嫡嫩子孔孕字存孙孜孝孟季孤学孩孪孰孵孺孽宁它宅宇守安宋完宏宗官宙定宛宜宝实宠审客宣室宦宪宫宰害宴宵家容宽宾宿寂寄寅密寇富寐寒寓寝寞");
    } else if k == 9 {
        reveal_strlit("察寡寥寨寸对寺寻导寿封射将尉尊小少尔尖尘尚尝尤尧就尸尹尺尼尽尾尿局屁层居屈屉届屋屎屏屑展属屠屡履屯山屹屿岁岂岔岗岛岩岭岳岸岿峙峡峦峨峪峭峰峻崇崎崔崖崩崭嵌巍川州巡巢工左巧巨巩巫差己已巳巴巷巾币市布帅帆");
    } else if k == 10 {
        reveal_strlit("师希帐帕帖帘帚帛帜帝带帧席帮常帽幂幅幌幕幢干平年并幸幻幼幽广庄庆庇床序庐库应底店庙庚府庞废度座庭庶康庸廉廊廓廖延廷建开异弃弄弊式弓引弗弘弛弟张弥弦弧弯弱弹强归当录彝形彤彦彩彪彬彭彰影役彻彼往征径待很徊");
    } else if k == 11 {
        reveal_strlit("律徐徒得徘御循微德徽心必忆忌忍志忘忙忠忧快忱念忻忽忿怀态怂怎怒怔怕怖怜思怠急性怨怪怯总恃恋恍恐恒恕恢恤恨恩恫恬恭息恰恳恶恼恿悄悉悍悔悟悠患悦您悬悯悲悸悼情惊惋惑惕惜惟惠惦惧惨惩惫惭惮惯惰想惶惹惺愁愈愉");
    } else if k == 12 {
        reveal_strlit("意愚感愤愧愿慈慌慎慑慕慢慧慨慰慷憋憎憨憾懂懈懊懒懦戈戊戌戍戎戏成我戒或战戚截戮戳戴户房所扁扇手才扎扑扒打扔托扛扣扦执扩扫扬扭扮扯扰扳扶批扼找承技抄抉把抑抒抓投抖抗折抚抛抠抡抢护报抨披抬抱抵抹押抽抿拂拄");
    } else if k == 13 {
        reveal_strlit("担拆拇拈拉拌拍拎拐拒拓拔拖拘拙招拜拟拢拣拥拦拧拨择括拭拯拱拳拴拷拼拽拾拿持挂指按挎挑挖挚挛挝挞挟挠挡挣挤挥挨挪挫振挺挽捂捅捆捉捌捍捎捏捐捕捞损捡换捣捧据捶捷捻掀掂掇授掉掌掏掐排掖掘掠探掣接控推掩措掳掷");
    } else if k == 14 {
        reveal_strlit("掸掺揉揍描提插揖握揣揩揪揭援揽搀搁搂搅搏搐搓搔搜搞搪搬搭携搽摄摆摇摈摊摔摘摧摩摸摹撂撅撇撑撒撕撞撤撩撬播撮撰撵撼擂擅操擎擒擞擦攀攒攘攫支收改攻放政故效敌敏救敖教敛敝敞敢散敦敬数敲整敷文斋斌斑斗料斜斟斡");
    } else if k == 15 {
        reveal_strlit("斤斥斧斩断斯新方施旁旅旋族旗无既日旦旧旨早旬旭旱时旷旺昂昆昌明昏易昔星映春昧昨昭是昼显晃晋晌晒晓晕晚晤晦晨普景晰晴晶智晾暂暇暑暖暗暮暴曙曝曰曲曳更曹曼曾替最月有朋服朔朗望朝期木未末本札术朱朴朵机朽杀杂");
    } else if k == 16 {
        reveal_strlit("权杆杉李杏材村杖杜束杠条来杨杭杯杰松板极构枉析枕林枚果枝枢枣枪枫枯架枷柄柏某柑柒染柔柜柞柠查柬柯柱柳柴柿栅标栈栋栏树栓栖栗校株样核根格栽桂桃桅框案桌桐桑桓桔档桥桨桩桶梁梅梆梗梢梦梧梨梭梯械梳检棉棋棍棒");
    } else if k == 17 {
        reveal_strlit("棕棘棚棠森棱棵棺椅植椎椒椭椰椽椿楔楚楞楷楼概榆榔榜榨榴榷槐槛槽樊樟模横樱橇橙橡橱檀檄檬欠次欢欣欧欲欺款歇歉歌止正此步武歧歪歹死歼殃殆殉殊残殖殴段殷殿毁毅毋母每毒比毕毖毗毙毛毡毫毯氏民氓气氖氛氟氢氦氧氨");
    } else if k == 18 {
        reveal_strlit("氮氯氰水永汀汁求汇汉汐汕汗汛汝汞江池污汤汪汰汲汹汽汾沁沂沃沈沉沏沙沛沟没沤沥沦沧沪沫沮河沸油治沼沽沾沿泄泅泉泊泌法泛泞泡波泣泥注泪泰泳泵泻泼泽洁洋洒洗洛洞津洪洱洲活洼洽派流浅浆浇浊测济浑浓浙浚浦浩浪浮");
    } else if k == 19 {
        reveal_strlit("浴海浸涂涅消涉涌涎涕涛涝涟涡涣涤润涧涨涩涪涯液涵涸淀淄淆淋淌淑淖淘淡淤淫淬淮深淳混淹添清渊渍渐渔渗渝渠渡渣渤温渭港渴游渺湃湍湖湘湛湾湿溃溅溉源溜溢溪溯溶溺滁滇滋滑滓滔滚滞满滤滥滦滨滩滴漂漆漏漓演漠漫漱");
    } else if k == 20 {
        reveal_strlit("漳漾潍潘潜潞潦潭潮澄澈澎澜澡澳激濒瀑灌火灭灯灰灵灶灸灼灾灿炉炊炎炒炔炕炙炬炭炮炯炳炸点炼炽烁烂烃烈烘烙烛烟烤烦烧烩烫烬热烯烷烹烽焉焊焕焙焚焦焰然煌煎煞煤照煮煽熄熊熏熔熙熟熬燃燎燕燥爆爪爬爱爵父爷爸爹爽");
    } else if k == 21 {
        reveal_strlit("片版牌牙牛牟牡牢牧物牲牵特牺犀犁犊犬犯状犹狂狄狈狐狗狙狞狠狡独狭狮狰狱狸狼猎猖猛猜猩猪猫献猴猾猿獭玄率玉王玖玛玩玫环现玲玻珊珍珐珠班球琅理琉琐琢琳琴琵琶琼瑚瑞瑟瑰瑶璃瓜瓢瓣瓤瓦瓮瓶瓷甄甘甚甜生甥用甩甫");
    } else if k == 22 {
        reveal_strlit("甭田由甲申电男甸画畅界畏畔留畜略畦番畴畸疆疏疑疗疙疚疟疡疤疥疫疮疯疲疵疹疼疽疾病症痈痉痊痒痔痕痘痛痞痢痪痰痴痹瘁瘟瘤瘦瘩瘪瘫瘴瘸癌癣癸登白百皂的皆皇皋皑皖皮皱皿盂盅盆盈益盎盏盐监盒盔盖盗盘盛盟目盯盲直");
    } else if k == 23 {
        reveal_strlit("相盼盾省眉看真眠眨眩眯眶眷眺眼着睁睛睡督睦睫睬睹瞄瞅瞎瞒瞥瞧瞩瞪瞬瞳瞻矗矛矢矣知矩矫短矮石矽矾矿码砂砌砍砒研砖砚砧砰破砷砸砾础硅硒硕硝硫硬确硷硼碉碌碍碎碑碗碘碟碧碰碱碳碴碾磁磅磊磋磐磕磨磷磺礁示礼社祁");
    } else if k == 24 {
        reveal_strlit("祈祖祝神祟祥票祭祷祸禁禄福禹离禽禾秀私秃秆秉秋种科秒秘租秤秦秧秩积称秸移秽稀程稍税稗稚稠稳稻稼稽稿穆穗穴究穷空穿突窃窄窍窑窒窖窗窘窜窝窟窥窿立竖站竞竟章竣童竭端竹竿笆笋笑笔笛符笨第笺笼等筋筏筐筑筒答策");
    } else if k == 25 {
        reveal_strlit("筛筷筹签简箍箔箕算管箩箭箱篆篇篓篙篡篮篱篷簇簧簿籍米类籽粉粒粕粗粘粟粤粥粪粮粱粳粹精糊糕糖糙糜糟糠糯系紊素索紧紫累絮繁纂纠红纤约级纪纫纬纯纱纲纳纵纶纷纸纹纺纽线练组绅细织终绊绍绎经绑绒结绕绘给绚络绝绞");
    } else if k == 26 {
        reveal_strlit("统绢绣绥绦继绩绪续绰绳维绵绷绸综绽绿缀缄缅缆缉缎缓缔缕编缘缚缝缠缨缩缮缴缸缺罐网罕罗罚罢罩罪置署羊羌美羔羚羞羡群羹羽翁翅翌翔翘翟翠翰翱翻翼耀老考者而耍耐耕耗耘耙耪耳耶耸耻耽耿聂聊聋职联聘聚聪肃肄肆肇肉");
    } else if k == 27 {
        reveal_strlit("肋肌肖肘肚肛肝肠股肢肤肥肩肪肮肯育肺肾肿胀胁胃胆背胎胖胚胜胞胡胯胰胳胶胸胺能脂脆脉脊脏脐脑脓脖脚脯脱脸脾腆腊腋腐腑腔腕腥腮腰腹腺腻腾腿膀膊膏膘膛膜膝膨膳臀臂臃臆臣自臭至致臻臼舀舅舆舌舍舒舔舜舞舟航般舰");
    } else if k == 28 {
        reveal_strlit("舱舵舶舷船艇艘良艰色艳艺艾节芋芍芒芜芝芥芦芬芭芯花芳芹芽苇苍苏苑苔苗苛苞苟若苦苫苯英苹茁茂范茄茅茎茧茨茫茬茵茶茸茹荆草荐荒荔荚荡荣荤荧荫药荷莆莉莎莫莱莲获莹莽菇菊菌菏菜菠菩菱菲萄萌萍萎萝萤营萧萨落著葛");
    } else if k == 29 {
        reveal_strlit("葡董葫葬葱葵蒂蒋蒙蒜蒲蒸蓄蓉蓑蓖蓝蓟蓬蔑蔓蔗蔚蔡蔫蔬蔷蔼蔽蕉蕊蕴蕾薄薛薪薯藉藏藐藕藤藩藻蘑蘸虎虏虐虑虚虞虫虱虹虽虾蚀蚁蚂蚊蚌蚕蚜蚤蛀蛆蛇蛊蛋蛔蛙蛛蛤蛮蛰蛹蛾蜀蜂蜒蜕蜗蜘蜜蜡蝇蝉蝎蝗蝴蝶融螟螺蟹蠕蠢血衅");
    } else if k == 30 {
        reveal_strlit("行衍衔街衙衡衣补表衫衬衰衷袁袄袋袍袒袖袜被袭袱裁裂装裔裕裙裤裳裴裸裹褂褐褒褥褪襄襟西要覆见观规觅视览觉角解触言詹誉誊誓警譬计订讣认讥讨让讫训议讯记讲讳讶许讹论讼讽设访诀证评诅识诈诉诊诌词译试诗诚诛话诞");
    } else if k == 31 {
        reveal_strlit("诡询诣该详诧诫诬语误诱诲说诵请诸诺读诽课谁调谅谆谈谊谋谍谎谐谓谗谚谜谢谣谤谦谨谩谬谭谰谱谴谷豁豆豌象豢豪豫豹豺貉貌贝贞负贡财责贤败账货质贩贪贫贬购贮贯贰贱贴贵贷贸费贺贼贾贿赁赂赃资赊赋赌赎赏赐赔赖赘赚");
    } else if k == 32 {
        reveal_strlit("赛赞赠赡赢赣赤赦赫走赴赵赶起趁超越趋趟趣足趴趾跃跋跌跑距跟跨跪路跳践跺踊踌踏踞踢踩踪蹄蹈蹋蹦蹬蹭蹲蹿躁躇身躬躯躲躺车轧轨轩转轮软轰轴轻载轿较辅辆辈辉辊辐辑输辕辖辗辙辛辜辞辟辣辨辩辫辰辱边辽达迁迂迄迅过");
    } else if k == 33 {
        reveal_strlit("迈迎运近返还这进远违连迟迢迪迫迭述迷迸迹追退送适逃逆选逊透逐递途逗通逛逝逞速造逢逮逸逻逼逾遁遂遇遍遏道遗遣遥遭遮遵避邀邑邓邢那邦邪邮邯邱邵邹邻郁郊郎郑郝郡郧部郭郴郸都鄂鄙酉酋酌配酒酗酚酝酞酣酥酪酬酮酱");
    } else if k == 34 {
        reveal_strlit("酵酶酷酸酿醇醉醋醒醚醛采釉释里重野量金釜鉴针钉钎钒钓钙钝钞钟钠钡钢钥钦钧钨钩钮钱钳钵钻钾铀铁铂铃铅铆铜铝铡铣铬铭铰铱铲银铸铺链销锁锄锅锈锋锌锐锑锗错锚锡锣锤锥锦锨锭键锯锰锹锻镀镁镇镊镍镐镑镜镣镭镰镶长");
    } else if k == 35 {
        reveal_strlit("门闪闭问闯闰闲间闷闸闹闺闻闽阀阁阂阅阉阎阐阑阔阜队阮防阳阴阵阶阻阿陀附际陆陇陈陋陌降限陕陛陡院除陨险陪陵陶陷隅隆隋随隐隔隘隙障隧隶难雀雁雄雅集雇雌雍雏雕雨雪零雷雹雾需霄震霉霍霓霖霜霞露霸霹青靖静靛非靠");
    } else if k == 36 {
        reveal_strlit("靡面革靳靴靶鞋鞍鞘鞠鞭韦韧韩韭音韵韶页顶顷项顺须顽顾顿颁颂预颅领颇颈颊颐频颓颖颗题颜额颠颤颧风飘飞食餐饥饭饮饯饰饱饲饵饶饺饼饿馁馅馆馈馋馏馒首香马驭驮驯驰驱驳驴驶驹驻驼驾骂骄骆骇骋验骏骑骗骚骡骤骨骸髓");
    } else if k == 37 {
        reveal_strlit("高鬃鬼魁魂魄魏魔鱼鲁鲍鲜鲤鲸鳃鳖鳞鸟鸡鸣鸥鸦鸭鸯鸳鸵鸽鸿鹃鹅鹊鹏鹤鹰鹿麓麦麻黄黍黎黑黔默鼎鼓鼠鼻齐齿龄龋龙龚龟");
    }
}

/// The first `n` parts hold no character twice, and their code points run from U+4E00
/// to the last of part `n - 1`.
proof fn lemma_gb2312_upto(n: int)
    requires
        0 <= n <= gb2312_parts(),
    ensures
        forall|i: int|
            0 <= i < gb2312_upto(n).len() ==> 0x4e00 <= (#[trigger] gb2312_upto(n)[i]) as u32
                <= gb2312_part_last(n - 1),
        forall|i: int, j: int|
            0 <= i < j < gb2312_upto(n).len() ==> #[trigger] gb2312_upto(n)[i] != #[trigger] gb2312_upto(n)[j],
    decreases n,
{
    if n > 0 {
        lemma_gb2312_upto(n - 1);
        lemma_gb2312_part(n - 1);
        let a = gb2312_upto(n - 1);
        let b = gb2312_part(n - 1);
        let s = a + b;
        assert(n >= 2 ==> gb2312_part_last(n - 2) < gb2312_part_first(n - 1));
        assert(0x4e00 <= gb2312_part_first(n - 1));
        assert forall|i: int| 0 <= i < s.len() implies 0x4e00 <= (#[trigger] s[i]) as u32 <= gb2312_part_last(
            n - 1,
        ) by {
            if i < a.len() {
                assert(s[i] == a[i]);
            } else {
                assert(s[i] == b[i - a.len()]);
            }
        }
        assert forall|i: int, j: int| 0 <= i < j < s.len() implies #[trigger] s[i] != #[trigger] s[j] by {
            if j < a.len() {
                assert(s[i] == a[i] && s[j] == a[j]);
            } else if i >= a.len() {
                assert(s[i] == b[i - a.len()] && s[j] == b[j - a.len()]);
            } else {
                assert(s[i] == a[i] && s[j] == b[j - a.len()]);
                assert((s[i] as u32) < (s[j] as u32));
            }
        }
    }
}

/// The GB2312 level-1 hanzi hold no character twice, and no line break or tab.
proof fn lemma_gb2312_distinct()
    ensures
        forall|i: int| 0 <= i < gb2312_level1().len() ==> !is_layout_char(#[trigger] gb2312_level1()[i]),
        forall|i: int, j: int|
            0 <= i < j < gb2312_level1().len() ==> #[trigger] gb2312_level1()[i] != #[trigger] gb2312_level1()[j],
{
    lemma_gb2312_upto(gb2312_parts());
    assert forall|i: int| 0 <= i < gb2312_level1().len() implies !is_layout_char(#[trigger] gb2312_level1()[i]) by {
        assert(0x4e00 <= gb2312_level1()[i] as u32);
    }
}

/// Law: extracting the character set of a preset gives the preset back, with a space
/// appended when it has none (every preset is free of repeats, line breaks and tabs).
pub proof fn lemma_preset_extract(p: CharsetPreset)
    ensures
        extract_spec(preset_spec(p)) == if preset_spec(p).contains(' ') {
            preset_spec(p)
        } else {
            preset_spec(p).push(' ')
        },
{
    let s = preset_spec(p);
    lemma_preset_distinct(p);
    lemma_first_seen_fixed(s);
    assert(s.push(' ').drop_last() =~= s);
    assert(s.push(' ').last() == ' ');
}

} // verus!
